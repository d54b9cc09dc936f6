//! Byte-level scanning of source lines: whitespace trimming, comment and
//! delimiter search, splitting into whitespace-separated tokens, and
//! case-insensitive keyword comparison. Lines are ASCII byte sequences.

use vstd::prelude::*;

verus! {

// The bytes the grammar gives a meaning to.
pub const B_SPACE: u8 = 32;

pub const B_HASH: u8 = 35;  // '#', the immediate marker

pub const B_COMMA: u8 = 44;  // ','

pub const B_MINUS: u8 = 45;  // '-'

pub const B_SLASH: u8 = 47;  // '/', doubled it starts a comment

pub const B_COLON: u8 = 58;  // ':', the label delimiter

pub const B_LBRACKET: u8 = 91;  // '['

pub const B_RBRACKET: u8 = 93;  // ']'

/// ASCII whitespace: space, tab, line feed, vertical tab, form feed,
/// carriage return.
pub open spec fn is_space(b: u8) -> bool {
    b == B_SPACE || (9 <= b && b <= 13)
}

pub fn is_space_exec(b: u8) -> (r: bool)
    ensures
        r == is_space(b),
{
    b == B_SPACE || (9 <= b && b <= 13)
}

/// Uppercasing of a single ASCII byte.
pub open spec fn to_upper(b: u8) -> u8 {
    if 97 <= b && b <= 122 {
        (b - B_SPACE) as u8
    } else {
        b
    }
}

pub fn to_upper_exec(b: u8) -> (r: u8)
    ensures
        r == to_upper(b),
{
    if 97 <= b && b <= 122 {
        b - B_SPACE
    } else {
        b
    }
}

/// What is left of a byte sequence once leading whitespace is dropped.
pub open spec fn trim_front(s: Seq<u8>) -> Seq<u8>
    decreases s.len(),
{
    if s.len() > 0 && is_space(s[0]) {
        trim_front(s.drop_first())
    } else {
        s
    }
}

/// What is left of a byte sequence once trailing whitespace is dropped.
pub open spec fn trim_back(s: Seq<u8>) -> Seq<u8>
    decreases s.len(),
{
    if s.len() > 0 && is_space(s.last()) {
        trim_back(s.drop_last())
    } else {
        s
    }
}

/// Both-sided whitespace trimming.
pub open spec fn trim_spec(s: Seq<u8>) -> Seq<u8> {
    trim_back(trim_front(s))
}

proof fn lemma_trim_front_no_leading(s: Seq<u8>)
    ensures
        trim_front(s).len() > 0 ==> !is_space(trim_front(s)[0]),
    decreases s.len(),
{
    if s.len() > 0 && is_space(s[0]) {
        lemma_trim_front_no_leading(s.drop_first());
    }
}

proof fn lemma_trim_back_is_prefix(s: Seq<u8>)
    ensures
        trim_back(s).len() <= s.len(),
        forall|i: int| 0 <= i < trim_back(s).len() ==> trim_back(s)[i] == s[i],
    decreases s.len(),
{
    if s.len() > 0 && is_space(s.last()) {
        lemma_trim_back_is_prefix(s.drop_last());
        assert forall|i: int| 0 <= i < trim_back(s).len() implies trim_back(s)[i] == s[i] by {
            assert(trim_back(s)[i] == s.drop_last()[i]);
            assert(s.drop_last()[i] == s[i]);
        }
    }
}

/// A nonempty trimmed line starts with a non-whitespace byte.
pub proof fn lemma_trim_spec_first(s: Seq<u8>)
    ensures
        trim_spec(s).len() > 0 ==> !is_space(trim_spec(s)[0]),
{
    lemma_trim_front_no_leading(s);
    lemma_trim_back_is_prefix(trim_front(s));
}

proof fn lemma_trim_front_subrange(s: Seq<u8>, lo: int)
    requires
        0 <= lo < s.len(),
        is_space(s[lo]),
    ensures
        trim_front(s.subrange(lo, s.len() as int)) == trim_front(
            s.subrange(lo + 1, s.len() as int),
        ),
{
    let sub = s.subrange(lo, s.len() as int);
    assert(sub.drop_first() =~= s.subrange(lo + 1, s.len() as int));
}

proof fn lemma_trim_back_subrange(s: Seq<u8>, lo: int, hi: int)
    requires
        0 <= lo < hi <= s.len(),
        is_space(s[hi - 1]),
    ensures
        trim_back(s.subrange(lo, hi)) == trim_back(s.subrange(lo, hi - 1)),
{
    let sub = s.subrange(lo, hi);
    assert(sub.drop_last() =~= s.subrange(lo, hi - 1));
}

pub fn trim(s: &[u8]) -> (r: Vec<u8>)
    ensures
        r@ == trim_spec(s@),
{
    let ghost n = s@.len() as int;
    let mut lo: usize = 0;
    proof {
        assert(s@.subrange(0, n) =~= s@);
    }
    while lo < s.len() && is_space_exec(s[lo])
        invariant
            lo <= s@.len(),
            trim_front(s@) == trim_front(s@.subrange(lo as int, s@.len() as int)),
        decreases s@.len() - lo,
    {
        proof {
            lemma_trim_front_subrange(s@, lo as int);
        }
        lo += 1;
    }
    proof {
        let sub = s@.subrange(lo as int, n);
        if lo < s@.len() {
            assert(sub[0] == s@[lo as int]);
        }
        assert(trim_front(sub) == sub);
    }
    let mut hi: usize = s.len();
    while hi > lo && is_space_exec(s[hi - 1])
        invariant
            lo <= hi <= s@.len(),
            trim_back(s@.subrange(lo as int, s@.len() as int)) == trim_back(
                s@.subrange(lo as int, hi as int),
            ),
        decreases hi,
    {
        proof {
            lemma_trim_back_subrange(s@, lo as int, hi as int);
        }
        hi -= 1;
    }
    proof {
        let sub = s@.subrange(lo as int, hi as int);
        if hi > lo {
            assert(sub.last() == s@[hi - 1]);
        }
        assert(trim_back(sub) == sub);
    }
    let mut r: Vec<u8> = Vec::new();
    let mut i: usize = lo;
    while i < hi
        invariant
            lo <= i <= hi <= s@.len(),
            r@ == s@.subrange(lo as int, i as int),
        decreases hi - i,
    {
        r.push(s[i]);
        proof {
            assert(r@ =~= s@.subrange(lo as int, i + 1));
        }
        i += 1;
    }
    r
}

/// The position of the first occurrence of byte `b` at or after `i`.
pub open spec fn find_byte_from(s: Seq<u8>, b: u8, i: int) -> Option<int>
    decreases s.len() - i when 0 <= i <= s.len()
{
    if i >= s.len() {
        None
    } else if s[i] == b {
        Some(i)
    } else {
        find_byte_from(s, b, i + 1)
    }
}

pub fn find_byte(s: &[u8], b: u8) -> (r: Option<usize>)
    ensures
        match r {
            Some(p) => find_byte_from(s@, b, 0) == Some(p as int) && p < s@.len() && s@[p as int]
                == b,
            None => find_byte_from(s@, b, 0) is None,
        },
{
    let mut i: usize = 0;
    while i < s.len()
        invariant
            i <= s@.len(),
            find_byte_from(s@, b, 0) == find_byte_from(s@, b, i as int),
        decreases s@.len() - i,
    {
        if s[i] == b {
            return Some(i);
        }
        i += 1;
    }
    None
}

/// The position of the first comment marker (two adjacent slashes) at or
/// after `i`.
pub open spec fn find_comment_from(s: Seq<u8>, i: int) -> Option<int>
    decreases s.len() - i when 0 <= i
{
    if i + 1 >= s.len() {
        None
    } else if s[i] == B_SLASH && s[i + 1] == B_SLASH {
        Some(i)
    } else {
        find_comment_from(s, i + 1)
    }
}

pub fn find_comment(s: &[u8]) -> (r: Option<usize>)
    ensures
        match r {
            Some(p) => find_comment_from(s@, 0) == Some(p as int) && p + 2 <= s@.len(),
            None => find_comment_from(s@, 0) is None,
        },
{
    if s.len() < 2 {
        return None;
    }
    let n = s.len();
    let mut i: usize = 0;
    while i < n - 1
        invariant
            2 <= n == s@.len(),
            i <= n - 1,
            find_comment_from(s@, 0) == find_comment_from(s@, i as int),
        decreases s@.len() - i,
    {
        if s[i] == B_SLASH && s[i + 1] == B_SLASH {
            return Some(i);
        }
        i += 1;
    }
    None
}

/// The end (exclusive) of the whitespace-free token that starts at `i`.
pub open spec fn token_end(s: Seq<u8>, i: int) -> int
    decreases s.len() - i when 0 <= i <= s.len()
{
    if i >= s.len() || is_space(s[i]) {
        i
    } else {
        token_end(s, i + 1)
    }
}

pub proof fn lemma_token_end_bounds(s: Seq<u8>, i: int)
    requires
        0 <= i <= s.len(),
    ensures
        i <= token_end(s, i) <= s.len(),
        i < s.len() && !is_space(s[i]) ==> token_end(s, i) > i,
    decreases s.len() - i,
{
    if i < s.len() && !is_space(s[i]) {
        lemma_token_end_bounds(s, i + 1);
    }
}

/// The whitespace-separated tokens of a line, scanning from position `i`.
pub open spec fn tokens_from(s: Seq<u8>, i: int) -> Seq<Seq<u8>>
    decreases s.len() - i when 0 <= i <= s.len() via tokens_from_decreases
{
    if i >= s.len() {
        Seq::empty()
    } else if is_space(s[i]) {
        tokens_from(s, i + 1)
    } else {
        seq![s.subrange(i, token_end(s, i))] + tokens_from(s, token_end(s, i))
    }
}

#[via_fn]
proof fn tokens_from_decreases(s: Seq<u8>, i: int) {
    if 0 <= i <= s.len() && i < s.len() && !is_space(s[i]) {
        lemma_token_end_bounds(s, i);
    }
}

/// The tokens of the whole line.
pub open spec fn tokens_of(s: Seq<u8>) -> Seq<Seq<u8>> {
    tokens_from(s, 0)
}

/// The views of a sequence of byte vectors.
pub open spec fn views_of(vs: Seq<Vec<u8>>) -> Seq<Seq<u8>> {
    vs.map_values(|v: Vec<u8>| v@)
}

pub fn tokenize(s: &[u8]) -> (r: Vec<Vec<u8>>)
    ensures
        views_of(r@) == tokens_of(s@),
{
    let mut out: Vec<Vec<u8>> = Vec::new();
    let mut i: usize = 0;
    proof {
        assert(views_of(out@) =~~= Seq::<Seq<u8>>::empty());
    }
    while i < s.len()
        invariant
            i <= s@.len(),
            tokens_of(s@) == views_of(out@) + tokens_from(s@, i as int),
        decreases s@.len() - i,
    {
        if is_space_exec(s[i]) {
            i += 1;
        } else {
            let ghost start = i as int;
            let mut tok: Vec<u8> = Vec::new();
            proof {
                assert(tok@ =~= s@.subrange(start, start));
            }
            while i < s.len() && !is_space_exec(s[i])
                invariant
                    0 <= start <= i <= s@.len(),
                    token_end(s@, start) == token_end(s@, i as int),
                    tok@ == s@.subrange(start, i as int),
                decreases s@.len() - i,
            {
                tok.push(s[i]);
                proof {
                    assert(tok@ =~= s@.subrange(start, i + 1));
                }
                i += 1;
            }
            proof {
                assert(token_end(s@, i as int) == i as int);
                assert(tokens_from(s@, start) == seq![tok@] + tokens_from(s@, i as int));
            }
            let ghost old_out = out@;
            out.push(tok);
            proof {
                assert(views_of(out@) =~~= views_of(old_out) + seq![tok@]);
                assert(views_of(old_out) + (seq![tok@] + tokens_from(s@, i as int))
                    =~~= (views_of(old_out) + seq![tok@]) + tokens_from(s@, i as int));
            }
        }
    }
    proof {
        assert(tokens_of(s@) =~~= views_of(out@));
    }
    out
}

pub fn bytes_eq(a: &[u8], b: &[u8]) -> (r: bool)
    ensures
        r == (a@ == b@),
{
    if a.len() != b.len() {
        assert(a@ != b@);
        return false;
    }
    let mut i: usize = 0;
    while i < a.len()
        invariant
            a@.len() == b@.len(),
            i <= a@.len(),
            forall|j: int| 0 <= j < i ==> a@[j] == b@[j],
        decreases a@.len() - i,
    {
        if a[i] != b[i] {
            return false;
        }
        i += 1;
    }
    proof {
        assert(a@ =~= b@);
    }
    true
}

/// Whether the byte sequence contains any whitespace.
pub open spec fn has_space(s: Seq<u8>) -> bool {
    exists|i: int| 0 <= i < s.len() && is_space(s[i])
}

pub fn contains_space(s: &[u8]) -> (r: bool)
    ensures
        r == has_space(s@),
{
    let mut i: usize = 0;
    while i < s.len()
        invariant
            i <= s@.len(),
            forall|j: int| 0 <= j < i ==> !is_space(s@[j]),
        decreases s@.len() - i,
    {
        if is_space_exec(s[i]) {
            return true;
        }
        i += 1;
    }
    false
}

/// The token with every trailing comma removed, as operand separators are.
pub open spec fn strip_commas(s: Seq<u8>) -> Seq<u8>
    decreases s.len(),
{
    if s.len() > 0 && s.last() == B_COMMA {
        strip_commas(s.drop_last())
    } else {
        s
    }
}

pub fn strip_commas_exec(s: &[u8]) -> (r: Vec<u8>)
    ensures
        r@ == strip_commas(s@),
{
    let mut hi: usize = s.len();
    proof {
        assert(s@.subrange(0, s@.len() as int) =~= s@);
    }
    while hi > 0 && s[hi - 1] == B_COMMA
        invariant
            hi <= s@.len(),
            strip_commas(s@) == strip_commas(s@.subrange(0, hi as int)),
        decreases hi,
    {
        proof {
            let sub = s@.subrange(0, hi as int);
            assert(sub.drop_last() =~= s@.subrange(0, hi - 1));
        }
        hi -= 1;
    }
    proof {
        let sub = s@.subrange(0, hi as int);
        if hi > 0 {
            assert(sub.last() == s@[hi - 1]);
        }
        assert(strip_commas(sub) == sub);
    }
    let mut r: Vec<u8> = Vec::new();
    let mut i: usize = 0;
    while i < hi
        invariant
            i <= hi <= s@.len(),
            r@ == s@.subrange(0, i as int),
        decreases hi - i,
    {
        r.push(s[i]);
        proof {
            assert(r@ =~= s@.subrange(0, i + 1));
        }
        i += 1;
    }
    r
}

/// A copy of the subrange `[lo, hi)` of a byte slice.
pub fn copy_range(s: &[u8], lo: usize, hi: usize) -> (r: Vec<u8>)
    requires
        lo <= hi <= s@.len(),
    ensures
        r@ == s@.subrange(lo as int, hi as int),
{
    let mut r: Vec<u8> = Vec::new();
    let mut i: usize = lo;
    while i < hi
        invariant
            lo <= i <= hi <= s@.len(),
            r@ == s@.subrange(lo as int, i as int),
        decreases hi - i,
    {
        r.push(s[i]);
        proof {
            assert(r@ =~= s@.subrange(lo as int, i + 1));
        }
        i += 1;
    }
    r
}

} // verus!
