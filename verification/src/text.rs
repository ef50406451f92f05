//! Character-level text utilities: searching, splitting, decimal numbers
//! and ASCII case folding, with exact sequence-level specifications.

use vstd::prelude::*;
use vstd::string::StrSliceExecFns;
use vstd::string::StringExecFns;

verus! {

/// A decimal digit character.
pub open spec fn is_digit(c: char) -> bool {
    48 <= c as u32 <= 57
}

/// Numeric value of a digit character.
pub open spec fn digit_val(c: char) -> nat
    recommends
        is_digit(c),
{
    (c as u32 - 48) as nat
}

/// The character for a single decimal digit.
pub open spec fn digit_char(d: nat) -> char
    recommends
        d < 10,
{
    ((d + 48) as u8) as char
}

/// Every character of the sequence is a decimal digit.
pub open spec fn all_digits(s: Seq<char>) -> bool {
    forall|i: int| 0 <= i < s.len() ==> is_digit(s[i])
}

/// Value of a digit sequence read in base ten, most significant first.
pub open spec fn dec_val(s: Seq<char>) -> nat
    decreases s.len(),
{
    if s.len() == 0 {
        0
    } else {
        dec_val(s.drop_last()) * 10 + digit_val(s.last())
    }
}

/// Canonical decimal rendering of a natural number (no leading zeros,
/// except for the single digit `0`).
pub open spec fn dec_str(n: nat) -> Seq<char>
    decreases n,
{
    if n < 10 {
        seq![digit_char(n)]
    } else {
        dec_str(n / 10).push(digit_char(n % 10))
    }
}

/// Blank characters that separate tokens within a line.
pub open spec fn is_ws(c: char) -> bool {
    c == ' ' || c == '\t' || c == '\r'
}

/// Index of the first occurrence of `c` at or after `from`, or the length
/// of the sequence when there is none.
pub open spec fn find_idx(s: Seq<char>, c: char, from: int) -> int
    decreases s.len() - from,
{
    if from < 0 || from >= s.len() {
        s.len() as int
    } else if s[from] == c {
        from
    } else {
        find_idx(s, c, from + 1)
    }
}

/// Index of the first non-blank character at or after `from`.
pub open spec fn skip_ws(s: Seq<char>, from: int) -> int
    decreases s.len() - from,
{
    if from < 0 || from >= s.len() {
        s.len() as int
    } else if is_ws(s[from]) {
        skip_ws(s, from + 1)
    } else {
        from
    }
}

/// Index of the first blank character at or after `from`.
pub open spec fn token_end(s: Seq<char>, from: int) -> int
    decreases s.len() - from,
{
    if from < 0 || from >= s.len() {
        s.len() as int
    } else if is_ws(s[from]) {
        from
    } else {
        token_end(s, from + 1)
    }
}

/// The pieces of `s` from `start` on, cut at every occurrence of `sep`.
/// Always yields at least one (possibly empty) piece.
pub open spec fn split_from(s: Seq<char>, sep: char, start: int) -> Seq<Seq<char>>
    recommends
        0 <= start <= s.len(),
    decreases s.len() - start,
{
    let i = find_idx(s, sep, start);
    if start <= i < s.len() {
        seq![s.subrange(start, i)] + split_from(s, sep, i + 1)
    } else {
        seq![s.subrange(start, s.len() as int)]
    }
}

/// ASCII lower-casing of one character; anything but `A`..`Z` is unchanged.
pub open spec fn lower_char(c: char) -> char {
    if 65 <= c as u32 <= 90 {
        ((c as u32 + 32) as u8) as char
    } else {
        c
    }
}

/// ASCII lower-casing of a character sequence.
pub open spec fn lower_seq(s: Seq<char>) -> Seq<char> {
    Seq::new(s.len(), |i: int| lower_char(s[i]))
}

/// `find_idx` stays within bounds, finds `c`, and skips nothing.
pub proof fn lemma_find_idx(s: Seq<char>, c: char, from: int)
    requires
        0 <= from <= s.len(),
    ensures
        from <= find_idx(s, c, from) <= s.len(),
        find_idx(s, c, from) < s.len() ==> s[find_idx(s, c, from)] == c,
        forall|j: int| from <= j < find_idx(s, c, from) ==> s[j] != c,
    decreases s.len() - from,
{
    if from < s.len() && s[from] != c {
        lemma_find_idx(s, c, from + 1);
    }
}

/// Appending one character multiplies the decimal value by ten and adds
/// the digit.
pub proof fn lemma_dec_val_push(s: Seq<char>, c: char)
    ensures
        dec_val(s.push(c)) == dec_val(s) * 10 + digit_val(c),
{
    assert(s.push(c).drop_last() =~= s);
    assert(s.push(c).last() == c);
}

/// Longer digit prefixes never have smaller values.
pub proof fn lemma_dec_val_take_le(s: Seq<char>, i: int, j: int)
    requires
        0 <= i <= j <= s.len(),
    ensures
        dec_val(s.take(i)) <= dec_val(s.take(j)),
    decreases j - i,
{
    if i < j {
        lemma_dec_val_take_le(s, i, j - 1);
        assert(s.take(j).drop_last() =~= s.take(j - 1));
        assert(dec_val(s.take(j)) == dec_val(s.take(j - 1)) * 10 + digit_val(s.take(j).last()));
    }
}

/// Relies on `String::push`: appends exactly the given character.
#[verifier::external_body]
pub(crate) fn push_char(s: &mut String, c: char)
    ensures
        final(s)@ == old(s)@.push(c),
{
    s.push(c);
}

/// Character-wise equality test of two string slices.
pub fn str_eq(a: &str, b: &str) -> (r: bool)
    ensures
        r <==> a@ == b@,
{
    let alen = a.unicode_len();
    let blen = b.unicode_len();
    if alen != blen {
        assert(a@ != b@);
        return false;
    }
    let mut i: usize = 0;
    while i < alen
        invariant
            alen == a@.len(),
            alen == b@.len(),
            i <= alen,
            forall|j: int| 0 <= j < i ==> a@[j] == b@[j],
        decreases alen - i,
    {
        if a.get_char(i) != b.get_char(i) {
            assert(a@ != b@);
            return false;
        }
        i = i + 1;
    }
    proof {
        assert(a@ =~= b@);
    }
    true
}

/// First occurrence of `c` at or after `from`, as `find_idx` describes it.
pub fn find_from(s: &str, c: char, from: usize) -> (r: usize)
    requires
        from <= s@.len(),
    ensures
        r == find_idx(s@, c, from as int),
        from <= r <= s@.len(),
        r < s@.len() ==> s@[r as int] == c,
        forall|j: int| from <= j < r ==> s@[j] != c,
{
    let len = s.unicode_len();
    let mut i: usize = from;
    while i < len
        invariant
            len == s@.len(),
            from <= i <= len,
            find_idx(s@, c, from as int) == find_idx(s@, c, i as int),
            forall|j: int| from <= j < i ==> s@[j] != c,
        decreases len - i,
    {
        if s.get_char(i) == c {
            proof {
                lemma_find_idx(s@, c, i as int);
            }
            return i;
        }
        i = i + 1;
    }
    proof {
        lemma_find_idx(s@, c, i as int);
    }
    len
}

/// First non-blank position at or after `from`, as `skip_ws` describes it.
pub fn skip_ws_from(s: &str, from: usize) -> (r: usize)
    requires
        from <= s@.len(),
    ensures
        r == skip_ws(s@, from as int),
        from <= r <= s@.len(),
{
    let len = s.unicode_len();
    let mut i: usize = from;
    while i < len
        invariant
            len == s@.len(),
            from <= i <= len,
            skip_ws(s@, from as int) == skip_ws(s@, i as int),
        decreases len - i,
    {
        let c = s.get_char(i);
        if !(c == ' ' || c == '\t' || c == '\r') {
            return i;
        }
        i = i + 1;
    }
    len
}

/// First blank position at or after `from`, as `token_end` describes it.
pub fn token_end_from(s: &str, from: usize) -> (r: usize)
    requires
        from <= s@.len(),
    ensures
        r == token_end(s@, from as int),
        from <= r <= s@.len(),
{
    let len = s.unicode_len();
    let mut i: usize = from;
    while i < len
        invariant
            len == s@.len(),
            from <= i <= len,
            token_end(s@, from as int) == token_end(s@, i as int),
        decreases len - i,
    {
        let c = s.get_char(i);
        if c == ' ' || c == '\t' || c == '\r' {
            return i;
        }
        i = i + 1;
    }
    len
}

/// Reads a decimal `u64`.  Succeeds exactly on non-empty all-digit strings
/// whose value fits.
pub fn parse_u64(s: &str) -> (r: Option<u64>)
    ensures
        match r {
            Some(v) => s@.len() > 0 && all_digits(s@) && v == dec_val(s@),
            None => s@.len() == 0 || !all_digits(s@) || dec_val(s@) > u64::MAX,
        },
{
    let len = s.unicode_len();
    if len == 0 {
        return None;
    }
    let mut acc: u64 = 0;
    let mut i: usize = 0;
    while i < len
        invariant
            len == s@.len(),
            0 < len,
            i <= len,
            all_digits(s@.take(i as int)),
            acc == dec_val(s@.take(i as int)),
        decreases len - i,
    {
        let c = s.get_char(i);
        let cu = c as u32;
        if cu < 48 || cu > 57 {
            assert(!is_digit(s@[i as int]));
            return None;
        }
        let d = (cu - 48) as u64;
        proof {
            assert(s@.take(i + 1).drop_last() =~= s@.take(i as int));
            lemma_dec_val_push(s@.take(i as int), s@[i as int]);
            assert(s@.take(i + 1) =~= s@.take(i as int).push(s@[i as int]));
        }
        let m = match acc.checked_mul(10) {
            Some(x) => x,
            None => {
                proof {
                    if all_digits(s@) {
                        lemma_dec_val_take_le(s@, i + 1, len as int);
                        assert(s@.take(len as int) =~= s@);
                    }
                }
                return None;
            },
        };
        let a2 = match m.checked_add(d) {
            Some(x) => x,
            None => {
                proof {
                    if all_digits(s@) {
                        lemma_dec_val_take_le(s@, i + 1, len as int);
                        assert(s@.take(len as int) =~= s@);
                    }
                }
                return None;
            },
        };
        acc = a2;
        i = i + 1;
    }
    proof {
        assert(s@.take(len as int) =~= s@);
    }
    Some(acc)
}

/// Renders a `u64` in decimal, as `dec_str` describes it.
pub fn u64_to_dec(n: u64) -> (r: String)
    ensures
        r@ == dec_str(n as nat),
    decreases n,
{
    if n < 10 {
        let mut s = String::new();
        push_char(&mut s, (48 + n as u8) as char);
        proof {
            assert(s@ =~= dec_str(n as nat));
        }
        s
    } else {
        let mut s = u64_to_dec(n / 10);
        push_char(&mut s, (48 + (n % 10) as u8) as char);
        s
    }
}

/// ASCII lower-casing, as `lower_seq` describes it.
pub fn to_ascii_lower(s: &str) -> (r: String)
    ensures
        r@ == lower_seq(s@),
{
    let len = s.unicode_len();
    let mut out = String::new();
    let mut i: usize = 0;
    while i < len
        invariant
            len == s@.len(),
            i <= len,
            out@.len() == i,
            forall|j: int| 0 <= j < i ==> out@[j] == lower_char(s@[j]),
        decreases len - i,
    {
        let c = s.get_char(i);
        let cu = c as u32;
        if 65 <= cu && cu <= 90 {
            push_char(&mut out, ((cu + 32) as u8) as char);
        } else {
            push_char(&mut out, c);
        }
        i = i + 1;
    }
    proof {
        assert(out@ =~= lower_seq(s@));
    }
    out
}

/// Whether `s` ends with the given suffix.
pub fn ends_with_str(s: &str, suffix: &str) -> (r: bool)
    ensures
        r <==> s@.len() >= suffix@.len() && s@.subrange(
            s@.len() - suffix@.len(),
            s@.len() as int,
        ) == suffix@,
{
    let len = s.unicode_len();
    let slen = suffix.unicode_len();
    if slen > len {
        return false;
    }
    let tail = s.substring_char(len - slen, len);
    str_eq(tail, suffix)
}

/// The pieces of `s` cut at every `sep`, as `split_from` describes them.
pub fn split_str(s: &str, sep: char) -> (r: Vec<String>)
    ensures
        r.deep_view() == split_from(s@, sep, 0),
{
    let len = s.unicode_len();
    let mut out: Vec<String> = Vec::new();
    let mut cursor: usize = 0;
    loop
        invariant
            len == s@.len(),
            cursor <= len,
            split_from(s@, sep, 0) =~= out.deep_view() + split_from(s@, sep, cursor as int),
        decreases len - cursor,
    {
        let ghost pre = out;
        let i = find_from(s, sep, cursor);
        if i < len {
            let piece = String::from_str(s.substring_char(cursor, i));
            let ghost pv = piece@;
            out.push(piece);
            proof {
                lemma_deep_view_push(pre, out, pv);
                assert(pre.deep_view().push(pv) + split_from(s@, sep, i + 1) =~= pre.deep_view()
                    + (seq![s@.subrange(cursor as int, i as int)] + split_from(s@, sep, i + 1)));
            }
            cursor = i + 1;
        } else {
            let piece = String::from_str(s.substring_char(cursor, len));
            let ghost pv = piece@;
            out.push(piece);
            proof {
                lemma_deep_view_push(pre, out, pv);
                assert(pre.deep_view().push(pv) =~= pre.deep_view() + seq![s@.subrange(
                    cursor as int,
                    len as int,
                )]);
                assert(split_from(s@, sep, 0) =~= out.deep_view());
            }
            return out;
        }
    }
}

/// Pushing one element onto a vector appends its deep view to the
/// vector's deep view.
pub proof fn lemma_deep_view_push<T: DeepView>(pre: Vec<T>, post: Vec<T>, xv: T::V)
    requires
        post@.len() == pre@.len() + 1,
        forall|i: int| 0 <= i < pre@.len() ==> post@[i] == pre@[i],
        post@[pre@.len() as int].deep_view() == xv,
    ensures
        post.deep_view() =~= pre.deep_view().push(xv),
{
}

} // verus!
