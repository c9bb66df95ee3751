//! Byte-level cutting of the line-oriented geometry format: the input into
//! lines, a line into blank-separated fields, and a face reference into
//! `/`-separated components.

use vstd::prelude::*;
use vstd::slice::{slice_subrange, slice_to_vec};

verus! {

/// Line separator.
pub const NEWLINE: u8 = 10;

/// Component separator inside one face reference.
pub const SLASH: u8 = 47;

/// Bytes that separate the fields of a line (ASCII blanks).
pub open spec fn is_space(b: u8) -> bool {
    b == 32 || b == 9 || b == 10 || b == 11 || b == 12 || b == 13
}

/// Length of the leading run of bytes of `s` other than `d`: the index of
/// the first `d`, or the length of `s` when none occurs.
pub open spec fn run_until(s: Seq<u8>, d: u8) -> nat
    decreases s.len(),
{
    if s.len() == 0 || s[0] == d {
        0
    } else {
        1 + run_until(s.skip(1), d)
    }
}

/// Length of the leading run of non-blank bytes of `s`.
pub open spec fn token_run(s: Seq<u8>) -> nat
    decreases s.len(),
{
    if s.len() == 0 || is_space(s[0]) {
        0
    } else {
        1 + token_run(s.skip(1))
    }
}

/// The pieces of `s` between occurrences of the separator `d`, empty pieces
/// kept: there is always one piece more than there are separators.
pub open spec fn split_at_byte(s: Seq<u8>, d: u8) -> Seq<Seq<u8>>
    decreases s.len(),
{
    let k = run_until(s, d);
    if k >= s.len() {
        seq![s]
    } else {
        seq![s.take(k as int)] + split_at_byte(s.skip(k as int + 1), d)
    }
}

/// The maximal runs of non-blank bytes of `s`, in order: the fields of a
/// line.
pub open spec fn tokens_of(s: Seq<u8>) -> Seq<Seq<u8>>
    decreases s.len(),
{
    if s.len() == 0 {
        Seq::<Seq<u8>>::empty()
    } else if is_space(s[0]) {
        tokens_of(s.skip(1))
    } else {
        let k = token_run(s);
        if k >= s.len() {
            seq![s]
        } else {
            seq![s.take(k as int)] + tokens_of(s.skip(k as int))
        }
    }
}

/// `run_until` is the one cut position with no `d` before it that either
/// ends the sequence or sits on a `d`.
pub proof fn lemma_run_until_unique(s: Seq<u8>, d: u8, k: nat)
    requires
        k <= s.len(),
        forall|i: int| 0 <= i < k ==> s[i] != d,
        k < s.len() ==> s[k as int] == d,
    ensures
        run_until(s, d) == k,
    decreases s.len(),
{
    if s.len() == 0 {
    } else if s[0] == d {
        assert(k == 0);
    } else {
        assert(k >= 1);
        lemma_run_until_unique(s.skip(1), d, (k - 1) as nat);
    }
}

/// `token_run` is the one cut position with no blank before it that either
/// ends the sequence or sits on a blank.
pub proof fn lemma_token_run_unique(s: Seq<u8>, k: nat)
    requires
        k <= s.len(),
        forall|i: int| 0 <= i < k ==> !is_space(s[i]),
        k < s.len() ==> is_space(s[k as int]),
    ensures
        token_run(s) == k,
    decreases s.len(),
{
    if s.len() == 0 {
    } else if is_space(s[0]) {
        assert(k == 0);
    } else {
        assert(k >= 1);
        lemma_token_run_unique(s.skip(1), (k - 1) as nat);
    }
}

fn is_space_byte(b: u8) -> (r: bool)
    ensures
        r == is_space(b),
{
    b == 32 || b == 9 || b == 10 || b == 11 || b == 12 || b == 13
}

/// Cuts `content` at every newline byte, one piece per line.
pub fn split_lines(content: &[u8]) -> (lines: Vec<Vec<u8>>)
    ensures
        lines.deep_view() == split_at_byte(content@, NEWLINE),
{
    let n = content.len();
    let mut lines: Vec<Vec<u8>> = Vec::new();
    let mut start: usize = 0;
    proof {
        assert(content@.skip(0) =~= content@);
        assert(lines.deep_view() + split_at_byte(content@, NEWLINE) =~~= split_at_byte(
            content@,
            NEWLINE,
        ));
    }
    loop
        invariant_except_break
            start <= n,
            n == content@.len(),
            split_at_byte(content@, NEWLINE) =~= lines.deep_view() + split_at_byte(
                content@.skip(start as int),
                NEWLINE,
            ),
        ensures
            lines.deep_view() == split_at_byte(content@, NEWLINE),
        decreases n - start,
    {
        let mut j = start;
        while j < n && content[j] != NEWLINE
            invariant
                start <= j <= n,
                n == content@.len(),
                forall|m: int| start <= m < j ==> content@[m] != NEWLINE,
            decreases n - j,
        {
            j += 1;
        }
        let piece = slice_to_vec(slice_subrange(content, start, j));
        proof {
            let rest = content@.skip(start as int);
            lemma_run_until_unique(rest, NEWLINE, (j - start) as nat);
            assert(piece@ =~= rest.take(j - start));
            if j == n {
                assert(split_at_byte(rest, NEWLINE) =~~= seq![piece@]);
            } else {
                assert(rest.skip(j - start + 1) =~= content@.skip(j + 1));
                assert(split_at_byte(rest, NEWLINE) =~~= seq![piece@] + split_at_byte(
                    content@.skip(j + 1),
                    NEWLINE,
                ));
            }
        }
        let ghost old_lines = lines.deep_view();
        lines.push(piece);
        proof {
            assert(lines.deep_view() =~~= old_lines.push(piece@));
        }
        if j == n {
            proof {
                assert(lines.deep_view() =~~= split_at_byte(content@, NEWLINE));
            }
            break;
        }
        start = j + 1;
        proof {
            assert(split_at_byte(content@, NEWLINE) =~~= lines.deep_view() + split_at_byte(
                content@.skip(start as int),
                NEWLINE,
            ));
        }
    }
    lines
}

/// The blank-separated fields of one line, in order.
pub fn split_fields(line: &Vec<u8>) -> (fields: Vec<Vec<u8>>)
    ensures
        fields.deep_view() == tokens_of(line@),
{
    let n = line.len();
    let mut fields: Vec<Vec<u8>> = Vec::new();
    let mut i: usize = 0;
    proof {
        assert(line@.skip(0) =~= line@);
        assert(fields.deep_view() + tokens_of(line@) =~~= tokens_of(line@));
    }
    while i < n
        invariant
            i <= n,
            n == line@.len(),
            tokens_of(line@) =~~= fields.deep_view() + tokens_of(line@.skip(i as int)),
        decreases n - i,
    {
        if is_space_byte(line[i]) {
            proof {
                assert(line@.skip(i as int).skip(1) =~= line@.skip(i + 1));
            }
            i += 1;
        } else {
            let mut j = i + 1;
            while j < n && !is_space_byte(line[j])
                invariant
                    i < j <= n,
                    n == line@.len(),
                    forall|m: int| i <= m < j ==> !is_space(line@[m]),
                decreases n - j,
            {
                j += 1;
            }
            let tok = slice_to_vec(slice_subrange(line.as_slice(), i, j));
            proof {
                let rest = line@.skip(i as int);
                lemma_token_run_unique(rest, (j - i) as nat);
                assert(tok@ =~= rest.take(j - i));
                if j == n {
                    assert(tokens_of(rest) =~~= seq![tok@] + tokens_of(line@.skip(j as int)));
                } else {
                    assert(rest.skip(j - i) =~= line@.skip(j as int));
                    assert(tokens_of(rest) =~~= seq![tok@] + tokens_of(line@.skip(j as int)));
                }
            }
            let ghost old_fields = fields.deep_view();
            fields.push(tok);
            proof {
                assert(fields.deep_view() =~~= old_fields.push(tok@));
            }
            i = j;
        }
    }
    proof {
        assert(tokens_of(line@.skip(n as int)) =~~= Seq::<Seq<u8>>::empty());
        assert(fields.deep_view() =~~= tokens_of(line@));
    }
    fields
}

/// The `/`-separated components of one face reference, empty components
/// kept.
pub fn split_slash(token: &Vec<u8>) -> (components: Vec<Vec<u8>>)
    ensures
        components.deep_view() == split_at_byte(token@, SLASH),
{
    let n = token.len();
    let mut components: Vec<Vec<u8>> = Vec::new();
    let mut start: usize = 0;
    proof {
        assert(token@.skip(0) =~= token@);
        assert(components.deep_view() + split_at_byte(token@, SLASH) =~~= split_at_byte(
            token@,
            SLASH,
        ));
    }
    loop
        invariant_except_break
            start <= n,
            n == token@.len(),
            split_at_byte(token@, SLASH) =~= components.deep_view() + split_at_byte(
                token@.skip(start as int),
                SLASH,
            ),
        ensures
            components.deep_view() == split_at_byte(token@, SLASH),
        decreases n - start,
    {
        let mut j = start;
        while j < n && token[j] != SLASH
            invariant
                start <= j <= n,
                n == token@.len(),
                forall|m: int| start <= m < j ==> token@[m] != SLASH,
            decreases n - j,
        {
            j += 1;
        }
        let piece = slice_to_vec(slice_subrange(token.as_slice(), start, j));
        proof {
            let rest = token@.skip(start as int);
            lemma_run_until_unique(rest, SLASH, (j - start) as nat);
            assert(piece@ =~= rest.take(j - start));
            if j == n {
                assert(split_at_byte(rest, SLASH) =~~= seq![piece@]);
            } else {
                assert(rest.skip(j - start + 1) =~= token@.skip(j + 1));
                assert(split_at_byte(rest, SLASH) =~~= seq![piece@] + split_at_byte(
                    token@.skip(j + 1),
                    SLASH,
                ));
            }
        }
        let ghost old_components = components.deep_view();
        components.push(piece);
        proof {
            assert(components.deep_view() =~~= old_components.push(piece@));
        }
        if j == n {
            proof {
                assert(components.deep_view() =~~= split_at_byte(token@, SLASH));
            }
            break;
        }
        start = j + 1;
        proof {
            assert(split_at_byte(token@, SLASH) =~~= components.deep_view() + split_at_byte(
                token@.skip(start as int),
                SLASH,
            ));
        }
    }
    components
}

} // verus!
