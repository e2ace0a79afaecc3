//! Byte-level parsers for the platform text sources: decimal numbers,
//! the kernel's CPU list syntax, cache size fields, and the small string
//! tools the parsers share.

use vstd::prelude::*;

use crate::error::Error;
use crate::mask::strictly_increasing;

verus! {

/// An ASCII decimal digit.
pub open spec fn is_digit(b: u8) -> bool {
    48 <= b <= 57
}

/// A non-empty run of ASCII decimal digits.
pub open spec fn all_digits(s: Seq<u8>) -> bool {
    s.len() > 0 && forall|i: int| 0 <= i < s.len() ==> is_digit(#[trigger] s[i])
}

/// The number a digit run denotes.
pub open spec fn digits_value(s: Seq<u8>) -> int
    decreases s.len(),
{
    if s.len() == 0 {
        0
    } else {
        digits_value(s.drop_last()) * 10 + (s.last() - 48)
    }
}

/// An ASCII space, tab, newline or carriage return.
pub open spec fn is_space(b: u8) -> bool {
    b == 32 || b == 9 || b == 10 || b == 13
}

/// `s` with leading and trailing ASCII whitespace removed.
pub open spec fn trimmed(s: Seq<u8>) -> Seq<u8>
    decreases s.len(),
{
    if s.len() == 0 {
        s
    } else if is_space(s[0]) {
        trimmed(s.drop_first())
    } else if is_space(s.last()) {
        trimmed(s.drop_last())
    } else {
        s
    }
}

/// The byte with ASCII capital letters folded to lower case.
pub open spec fn lower_byte(b: u8) -> u8 {
    if 65 <= b <= 90 {
        (b + 32) as u8
    } else {
        b
    }
}

/// The byte run folded to ASCII lower case.
pub open spec fn lower_bytes(s: Seq<u8>) -> Seq<u8> {
    s.map_values(|b: u8| lower_byte(b))
}

/// Whether two byte slices hold the same bytes.
pub fn bytes_eq(a: &[u8], b: &[u8]) -> (r: bool)
    ensures
        r == (a@ == b@),
{
    if a.len() != b.len() {
        assert(a@.len() != b@.len());
        return false;
    }
    let mut i: usize = 0;
    while i < a.len()
        invariant
            i <= a.len(),
            a@.len() == b@.len(),
            forall|j: int| 0 <= j < i ==> a@[j] == b@[j],
        decreases a.len() - i,
    {
        if a[i] != b[i] {
            return false;
        }
        i = i + 1;
    }
    proof {
        assert(a@ =~= b@);
    }
    true
}

/// Copies a byte slice with ASCII capitals folded to lower case.
pub fn to_lower(s: &[u8]) -> (r: Vec<u8>)
    ensures
        r@ == lower_bytes(s@),
{
    let mut r: Vec<u8> = Vec::new();
    let n = s.len();
    for i in 0..n
        invariant
            n == s@.len(),
            r@.len() == i,
            forall|j: int| 0 <= j < i ==> r@[j] == lower_byte(s@[j]),
    {
        let b = s[i];
        if 65 <= b && b <= 90 {
            r.push(b + 32);
        } else {
            r.push(b);
        }
    }
    proof {
        assert(r@ =~= lower_bytes(s@));
    }
    r
}

/// Returns the sub-slice of `s` with leading and trailing ASCII
/// whitespace removed.
pub fn trim(s: &[u8]) -> (r: &[u8])
    ensures
        r@ == trimmed(s@),
{
    let mut lo: usize = 0;
    let mut hi: usize = s.len();
    proof {
        assert(s@.subrange(0, s@.len() as int) =~= s@);
    }
    while lo < hi && (s[lo] == 32 || s[lo] == 9 || s[lo] == 10 || s[lo] == 13)
        invariant
            lo <= hi <= s@.len(),
            trimmed(s@) == trimmed(s@.subrange(lo as int, hi as int)),
        decreases hi - lo,
    {
        proof {
            lemma_trim_front(s@.subrange(lo as int, hi as int));
            assert(s@.subrange(lo as int, hi as int).drop_first() =~= s@.subrange(
                lo as int + 1,
                hi as int,
            ));
        }
        lo = lo + 1;
    }
    while lo < hi && (s[hi - 1] == 32 || s[hi - 1] == 9 || s[hi - 1] == 10 || s[hi - 1] == 13)
        invariant
            lo <= hi <= s@.len(),
            trimmed(s@) == trimmed(s@.subrange(lo as int, hi as int)),
            lo < hi ==> !is_space(s@[lo as int]),
        decreases hi - lo,
    {
        proof {
            lemma_trim_back(s@.subrange(lo as int, hi as int));
            assert(s@.subrange(lo as int, hi as int).drop_last() =~= s@.subrange(
                lo as int,
                hi as int - 1,
            ));
        }
        hi = hi - 1;
    }
    let r = slice_range(s, lo, hi);
    proof {
        if lo < hi {
            assert(trimmed(r@) == r@);
        } else {
            assert(r@ =~= Seq::<u8>::empty());
        }
    }
    r
}

/// A sub-slice by byte range.
pub fn slice_range(s: &[u8], lo: usize, hi: usize) -> (r: &[u8])
    requires
        lo <= hi <= s@.len(),
    ensures
        r@ == s@.subrange(lo as int, hi as int),
{
    let r: &[u8] = vstd::slice::slice_subrange(s, lo, hi);
    r
}

proof fn lemma_trim_front(s: Seq<u8>)
    requires
        s.len() > 0,
        is_space(s[0]),
    ensures
        trimmed(s) == trimmed(s.drop_first()),
{
}

proof fn lemma_trim_back(s: Seq<u8>)
    requires
        s.len() > 0,
        !is_space(s[0]),
        is_space(s.last()),
    ensures
        trimmed(s) == trimmed(s.drop_last()),
    decreases s.len(),
{
}

/// Parses a non-empty all-digit run as a `usize`; `None` when a byte is
/// not a digit, the run is empty, or the value does not fit.
pub fn parse_usize(s: &[u8]) -> (r: Option<usize>)
    ensures
        r is Some <==> all_digits(s@) && digits_value(s@) <= usize::MAX,
        r matches Some(v) ==> v == digits_value(s@),
{
    if s.len() == 0 {
        return None;
    }
    let mut acc: usize = 0;
    let n = s.len();
    for i in 0..n
        invariant
            n == s@.len(),
            all_digits(s@.subrange(0, i as int)) || i == 0,
            acc == digits_value(s@.subrange(0, i as int)),
            digits_value(s@.subrange(0, i as int)) <= usize::MAX,
    {
        let b = s[i];
        if b < 48 || b > 57 {
            proof {
                assert(!is_digit(s@[i as int]));
            }
            return None;
        }
        let d: usize = (b - 48) as usize;
        if acc > (usize::MAX - d) / 10 {
            proof {
                lemma_digits_value_grow(s@, i as int);
            }
            return None;
        }
        acc = acc * 10 + d;
        proof {
            assert(s@.subrange(0, i as int + 1).drop_last() =~= s@.subrange(0, i as int));
            assert(s@.subrange(0, i as int + 1).last() == s@[i as int]);
        }
    }
    proof {
        assert(s@.subrange(0, n as int) =~= s@);
    }
    Some(acc)
}

/// Parses a non-empty all-digit run as a `u64`.
pub fn parse_u64(s: &[u8]) -> (r: Option<u64>)
    ensures
        r is Some <==> all_digits(s@) && digits_value(s@) <= u64::MAX,
        r matches Some(v) ==> v == digits_value(s@),
{
    if s.len() == 0 {
        return None;
    }
    let mut acc: u64 = 0;
    let n = s.len();
    for i in 0..n
        invariant
            n == s@.len(),
            all_digits(s@.subrange(0, i as int)) || i == 0,
            acc == digits_value(s@.subrange(0, i as int)),
            digits_value(s@.subrange(0, i as int)) <= u64::MAX,
    {
        let b = s[i];
        if b < 48 || b > 57 {
            proof {
                assert(!is_digit(s@[i as int]));
            }
            return None;
        }
        let d: u64 = (b - 48) as u64;
        if acc > (u64::MAX - d) / 10 {
            proof {
                lemma_digits_value_grow64(s@, i as int);
            }
            return None;
        }
        acc = acc * 10 + d;
        proof {
            assert(s@.subrange(0, i as int + 1).drop_last() =~= s@.subrange(0, i as int));
            assert(s@.subrange(0, i as int + 1).last() == s@[i as int]);
        }
    }
    proof {
        assert(s@.subrange(0, n as int) =~= s@);
    }
    Some(acc)
}

/// If the whole run `s` is digits, its value is at least the value of
/// any prefix scaled up by the remaining digits; in particular a prefix
/// already over the limit pushes the whole value over it.
proof fn lemma_digits_value_grow(s: Seq<u8>, i: int)
    requires
        0 <= i < s.len(),
    ensures
        all_digits(s) && digits_value(s) <= usize::MAX ==> digits_value(s.subrange(0, i)) * 10 + (
        s[i] - 48) <= usize::MAX,
    decreases s.len() - i,
{
    if all_digits(s) && digits_value(s) <= usize::MAX {
        lemma_digits_prefix_step(s, i);
        lemma_digits_value_monotone(s, i + 1);
    }
}

proof fn lemma_digits_value_grow64(s: Seq<u8>, i: int)
    requires
        0 <= i < s.len(),
    ensures
        all_digits(s) && digits_value(s) <= u64::MAX ==> digits_value(s.subrange(0, i)) * 10 + (s[i]
            - 48) <= u64::MAX,
{
    if all_digits(s) && digits_value(s) <= u64::MAX {
        lemma_digits_prefix_step(s, i);
        lemma_digits_value_monotone(s, i + 1);
    }
}

/// The value of the prefix one digit longer.
proof fn lemma_digits_prefix_step(s: Seq<u8>, i: int)
    requires
        0 <= i < s.len(),
    ensures
        digits_value(s.subrange(0, i + 1)) == digits_value(s.subrange(0, i)) * 10 + (s[i] - 48),
{
    assert(s.subrange(0, i + 1).drop_last() =~= s.subrange(0, i));
    assert(s.subrange(0, i + 1).last() == s[i]);
}

/// The index of the first occurrence of `b` in `s`, or a negative
/// number when `s` does not hold `b`.
pub open spec fn find_byte(s: Seq<u8>, b: u8) -> int
    decreases s.len(),
{
    if s.len() == 0 {
        -1
    } else if s[0] == b {
        0
    } else if find_byte(s.drop_first(), b) < 0 {
        -1
    } else {
        find_byte(s.drop_first(), b) + 1
    }
}

pub proof fn lemma_find_byte(s: Seq<u8>, b: u8)
    ensures
        find_byte(s, b) < s.len(),
        find_byte(s, b) >= 0 ==> s[find_byte(s, b)] == b,
        forall|j: int| 0 <= j < find_byte(s, b) ==> s[j] != b,
        find_byte(s, b) < 0 ==> forall|j: int| 0 <= j < s.len() ==> s[j] != b,
    decreases s.len(),
{
    if s.len() > 0 && s[0] != b {
        lemma_find_byte(s.drop_first(), b);
        assert forall|j: int| 0 <= j < find_byte(s, b) implies s[j] != b by {
            if j > 0 {
                assert(s.drop_first()[j - 1] == s[j]);
            }
        }
        if find_byte(s, b) < 0 {
            assert forall|j: int| 0 <= j < s.len() implies s[j] != b by {
                if j > 0 {
                    assert(s.drop_first()[j - 1] == s[j]);
                }
            }
        }
    }
}

/// Finds the first occurrence of `b` in `s`.
pub fn find_byte_at(s: &[u8], b: u8) -> (r: Option<usize>)
    ensures
        r matches Some(i) ==> i == find_byte(s@, b) && i < s@.len() && s@[i as int] == b,
        r is None ==> find_byte(s@, b) < 0,
{
    let n = s.len();
    for i in 0..n
        invariant
            n == s@.len(),
            forall|j: int| 0 <= j < i ==> s@[j] != b,
    {
        if s[i] == b {
            proof {
                lemma_find_byte(s@, b);
                if find_byte(s@, b) < 0 {
                    assert(false);
                }
                if find_byte(s@, b) < i as int {
                    assert(s@[find_byte(s@, b)] != b);
                }
                if find_byte(s@, b) > i as int {
                    assert(s@[i as int] != b);
                }
            }
            return Some(i);
        }
    }
    proof {
        lemma_find_byte(s@, b);
        if find_byte(s@, b) >= 0 {
            assert(s@[find_byte(s@, b)] == b);
        }
    }
    None
}

/// Whether one comma-separated list item is well formed: a digit run,
/// or two digit runs joined by a dash whose first value is not above
/// the second, all values fitting `usize`.
pub open spec fn valid_item(s: Seq<u8>) -> bool {
    let k = find_byte(s, 45);
    if k < 0 {
        all_digits(s) && digits_value(s) <= usize::MAX
    } else {
        &&& all_digits(s.subrange(0, k))
        &&& all_digits(s.subrange(k + 1, s.len() as int))
        &&& digits_value(s.subrange(0, k)) <= digits_value(s.subrange(k + 1, s.len() as int))
        &&& digits_value(s.subrange(k + 1, s.len() as int)) <= usize::MAX
    }
}

/// The first ID a well-formed item covers.
pub open spec fn item_lo(s: Seq<u8>) -> int {
    let k = find_byte(s, 45);
    if k < 0 {
        digits_value(s)
    } else {
        digits_value(s.subrange(0, k))
    }
}

/// The last ID a well-formed item covers.
pub open spec fn item_hi(s: Seq<u8>) -> int {
    let k = find_byte(s, 45);
    if k < 0 {
        digits_value(s)
    } else {
        digits_value(s.subrange(k + 1, s.len() as int))
    }
}

/// Whether a well-formed item covers `id`.
pub open spec fn item_has(s: Seq<u8>, id: usize) -> bool {
    valid_item(s) && item_lo(s) <= id as int <= item_hi(s)
}

/// Whether a whole comma-separated list is well formed: every item is.
/// The empty string is one empty item, which is not well formed.
pub open spec fn valid_cpu_list(s: Seq<u8>) -> bool
    decreases s.len(),
{
    let k = find_byte(s, 44);
    if !(0 <= k < s.len()) {
        valid_item(s)
    } else {
        valid_item(s.subrange(0, k)) && valid_cpu_list(s.subrange(k + 1, s.len() as int))
    }
}

/// Whether some item of the list covers `id`.
pub open spec fn cpu_list_has(s: Seq<u8>, id: usize) -> bool
    decreases s.len(),
{
    let k = find_byte(s, 44);
    if !(0 <= k < s.len()) {
        item_has(s, id)
    } else {
        item_has(s.subrange(0, k), id) || cpu_list_has(s.subrange(k + 1, s.len() as int), id)
    }
}

/// Parses one list item into its inclusive ID range.
fn parse_item(seg: &[u8]) -> (r: Result<(usize, usize), Error>)
    ensures
        r is Ok <==> valid_item(seg@),
        r matches Err(e) ==> e is Detection,
        r matches Ok(p) ==> p.0 as int == item_lo(seg@) && p.1 as int == item_hi(seg@) && p.0
            <= p.1,
{
    proof {
        lemma_find_byte(seg@, 45);
    }
    match find_byte_at(seg, 45) {
        Some(k) => {
            let seg_len = seg.len();
            let start = slice_range(seg, 0, k);
            let end = slice_range(seg, k + 1, seg_len);
            let lo = match parse_usize(start) {
                Some(v) => v,
                None => {
                    return Err(Error::Detection("invalid CPU range start".to_owned()));
                },
            };
            let hi = match parse_usize(end) {
                Some(v) => v,
                None => {
                    return Err(Error::Detection("invalid CPU range end".to_owned()));
                },
            };
            if lo > hi {
                return Err(Error::Detection("reversed CPU range".to_owned()));
            }
            Ok((lo, hi))
        },
        None => {
            match parse_usize(seg) {
                Some(v) => Ok((v, v)),
                None => Err(Error::Detection("invalid CPU ID in the list".to_owned())),
            }
        },
    }
}

/// Inserts `x` into an ascending vector, keeping it ascending and
/// duplicate-free.
pub fn insert_sorted(v: &mut Vec<usize>, x: usize)
    requires
        strictly_increasing(old(v)@),
    ensures
        strictly_increasing(final(v)@),
        forall|y: usize| final(v)@.contains(y) == (old(v)@.contains(y) || y == x),
{
    let n = v.len();
    let mut p: usize = 0;
    while p < n && v[p] < x
        invariant
            p <= n,
            n == v@.len(),
            v@ == old(v)@,
            strictly_increasing(v@),
            forall|j: int| 0 <= j < p ==> v@[j] < x,
        decreases n - p,
    {
        p = p + 1;
    }
    if p < n && v[p] == x {
        proof {
            assert(v@.contains(v@[p as int]));
            assert forall|y: usize| v@.contains(y) == (old(v)@.contains(y) || y == x) by {}
        }
        return ;
    }
    v.insert(p, x);
    proof {
        let newv = v@;
        let oldv = old(v)@;
        assert forall|i: int, j: int| 0 <= i < j < newv.len() implies newv[i] < newv[j] by {
            if i < p && j == p {
            } else if i == p && j > p {
                assert(newv[j] == oldv[j - 1]);
                if p < n {
                    assert(oldv[p as int] > x || oldv[p as int] == x);
                    if j - 1 > p {
                        assert(oldv[p as int] < oldv[j - 1]);
                    }
                }
            } else if i < p && j > p {
                assert(newv[i] == oldv[i] && newv[j] == oldv[j - 1]);
                if i < j - 1 {
                    assert(oldv[i] < oldv[j - 1]);
                } else {
                    assert(oldv[i] < x);
                    assert(newv[j] == oldv[p as int]);
                }
            } else if i > p {
                assert(newv[i] == oldv[i - 1] && newv[j] == oldv[j - 1]);
            }
        }
        assert forall|y: usize| newv.contains(y) == (oldv.contains(y) || y == x) by {
            if oldv.contains(y) {
                let i = choose|i: int| 0 <= i < oldv.len() && oldv[i] == y;
                if i < p {
                    assert(newv[i] == y);
                } else {
                    assert(newv[i + 1] == y);
                }
            }
            assert(newv[p as int] == x);
            if newv.contains(y) {
                let i = choose|i: int| 0 <= i < newv.len() && newv[i] == y;
                if i < p {
                    assert(oldv[i] == y);
                } else if i > p {
                    assert(oldv[i - 1] == y);
                }
            }
        }
    }
}

/// Returns the ascending vector extended by every ID of the inclusive
/// range, still ascending and duplicate-free.
pub fn insert_range(ids: Vec<usize>, lo: usize, hi: usize) -> (r: Vec<usize>)
    requires
        lo <= hi,
        strictly_increasing(ids@),
    ensures
        strictly_increasing(r@),
        forall|y: usize| r@.contains(y) == (ids@.contains(y) || (lo <= y <= hi)),
{
    let ghost pre = ids@;
    let mut v = ids;
    let mut id = lo;
    while id < hi
        invariant
            lo <= id <= hi,
            strictly_increasing(v@),
            forall|y: usize|
                #![trigger v@.contains(y)]
                v@.contains(y) == (pre.contains(y) || (lo <= y < id)),
        decreases hi - id,
    {
        let ghost before = v@;
        insert_sorted(&mut v, id);
        proof {
            assert forall|y: usize| v@.contains(y) == (pre.contains(y) || (lo <= y <= id)) by {
                assert(v@.contains(y) == (before.contains(y) || y == id));
            }
        }
        id = id + 1;
    }
    let ghost before = v@;
    insert_sorted(&mut v, hi);
    proof {
        assert forall|y: usize| v@.contains(y) == (pre.contains(y) || (lo <= y <= hi)) by {
            assert(v@.contains(y) == (before.contains(y) || y == hi));
        }
    }
    v
}

/// Parses the kernel's CPU list syntax: comma-separated single IDs and
/// inclusive ranges, for example a lone ID, a pair joined by a dash, or
/// several of both. Returns the covered IDs ascending and without
/// duplicates. Leading and trailing whitespace is ignored; a reversed
/// range, a non-digit, or an empty list is refused.
pub fn parse_cpu_list(text: &[u8]) -> (r: Result<Vec<usize>, Error>)
    ensures
        r is Ok <==> valid_cpu_list(trimmed(text@)),
        r matches Err(e) ==> e is Detection,
        r matches Ok(v) ==> strictly_increasing(v@) && (forall|id: usize|
            v@.contains(id) == cpu_list_has(trimmed(text@), id)),
{
    let t = trim(text);
    let ghost whole = t@;
    let mut ids: Vec<usize> = Vec::new();
    let mut start: usize = 0;
    let tn = t.len();
    proof {
        assert(whole.subrange(0, tn as int) =~= whole);
    }
    loop
        invariant
            start <= tn,
            tn == t@.len(),
            t@ == whole,
            whole == trimmed(text@),
            strictly_increasing(ids@),
            valid_cpu_list(whole) == valid_cpu_list(whole.subrange(start as int, tn as int)),
            forall|id: usize|
                cpu_list_has(whole, id) == (ids@.contains(id) || cpu_list_has(
                    whole.subrange(start as int, tn as int),
                    id,
                )),
        decreases tn - start,
    {
        let rest = slice_range(t, start, tn);
        let ghost rests = rest@;
        proof {
            lemma_find_byte(rests, 44);
        }
        let comma = find_byte_at(rest, 44);
        let (seg_hi, is_last) = match comma {
            Some(k) => (k, false),
            None => (rest.len(), true),
        };
        let seg = slice_range(rest, 0, seg_hi);
        proof {
            if is_last {
                assert(seg@ =~= rests);
            }
        }
        let (lo, hi) = match parse_item(seg) {
            Ok(p) => p,
            Err(e) => {
                proof {
                    if is_last {
                        assert(valid_cpu_list(rests) == valid_item(rests));
                    } else {
                        assert(rests.subrange(0, seg_hi as int) == seg@);
                        assert(valid_cpu_list(rests) == (valid_item(seg@) && valid_cpu_list(
                            rests.subrange(seg_hi as int + 1, rests.len() as int),
                        )));
                    }
                }
                return Err(e);
            },
        };
        let ghost pre_ids = ids@;
        ids = insert_range(ids, lo, hi);
        proof {
            assert forall|y: usize| item_has(seg@, y) == (lo <= y <= hi) by {
                assert(item_has(seg@, y) == (valid_item(seg@) && item_lo(seg@) <= y as int
                    <= item_hi(seg@)));
            }
        }
        if is_last {
            proof {
                assert(valid_cpu_list(rests) == valid_item(rests));
                assert forall|y: usize| ids@.contains(y) == cpu_list_has(whole, y) by {
                    assert(cpu_list_has(rests, y) == item_has(rests, y));
                    assert(cpu_list_has(whole, y) == (pre_ids.contains(y) || cpu_list_has(
                        rests,
                        y,
                    )));
                }
            }
            return Ok(ids);
        }
        proof {
            let k = seg_hi as int;
            let suffix = whole.subrange(start as int + k + 1, tn as int);
            assert(rests.subrange(0, k) == seg@);
            assert(rests.subrange(k + 1, rests.len() as int) =~= suffix);
            assert(valid_cpu_list(rests) == (valid_item(seg@) && valid_cpu_list(suffix)));
            assert forall|y: usize|
                cpu_list_has(whole, y) == (ids@.contains(y) || cpu_list_has(suffix, y)) by {
                assert(cpu_list_has(rests, y) == (item_has(seg@, y) || cpu_list_has(suffix, y)));
                assert(cpu_list_has(whole, y) == (pre_ids.contains(y) || cpu_list_has(rests, y)));
                assert(ids@.contains(y) == (pre_ids.contains(y) || (lo <= y <= hi)));
            }
            assert(valid_cpu_list(whole) == valid_cpu_list(suffix));
        }
        start = start + seg_hi + 1;
    }
}

/// A well-formed CPU list covers at least one ID: its first item does.
pub proof fn lemma_valid_cpu_list_nonempty(s: Seq<u8>)
    requires
        valid_cpu_list(s),
    ensures
        exists|id: usize| #[trigger] cpu_list_has(s, id),
{
    let k = find_byte(s, 44);
    if !(0 <= k < s.len()) {
        lemma_valid_item_covers(s);
        let id = choose|id: usize| #[trigger] item_has(s, id);
        assert(cpu_list_has(s, id));
    } else {
        let head = s.subrange(0, k);
        lemma_valid_item_covers(head);
        let id = choose|id: usize| #[trigger] item_has(head, id);
        assert(cpu_list_has(s, id));
    }
}

/// A well-formed list item covers its first ID.
proof fn lemma_valid_item_covers(s: Seq<u8>)
    requires
        valid_item(s),
    ensures
        exists|id: usize| #[trigger] item_has(s, id),
{
    let k = find_byte(s, 45);
    if k < 0 {
        lemma_digits_value_nonneg(s);
        let id = digits_value(s) as usize;
        assert(item_has(s, id));
    } else {
        lemma_digits_value_nonneg(s.subrange(0, k));
        let id = digits_value(s.subrange(0, k)) as usize;
        assert(item_has(s, id));
    }
}

/// Parses a sysfs cache `size` field: a digit run with an optional `K`
/// suffix meaning multiples of 1024 bytes, no suffix meaning bytes.
pub fn parse_cache_size(s: &[u8]) -> (r: Option<u64>)
    ensures
        r is Some <==> valid_cache_size(s@),
        r matches Some(v) ==> v as int == cache_size_value(s@),
{
    if s.len() > 0 && (s[s.len() - 1] == 75 || s[s.len() - 1] == 107) {
        let prefix = slice_range(s, 0, s.len() - 1);
        proof {
            assert(prefix@ =~= s@.drop_last());
        }
        match parse_u64(prefix) {
            Some(v) => {
                if v <= u64::MAX / 1024 {
                    proof {
                        assert(v * 1024 <= u64::MAX) by (nonlinear_arith)
                            requires
                                v <= u64::MAX / 1024,
                        ;
                    }
                    Some(v * 1024)
                } else {
                    proof {
                        assert(v * 1024 > u64::MAX) by (nonlinear_arith)
                            requires
                                v > u64::MAX / 1024,
                        ;
                    }
                    None
                }
            },
            None => None,
        }
    } else {
        parse_u64(s)
    }
}

/// Whether a cache `size` field is well formed and its value fits.
pub open spec fn valid_cache_size(s: Seq<u8>) -> bool {
    if s.len() > 0 && (s.last() == 75 || s.last() == 107) {
        all_digits(s.drop_last()) && digits_value(s.drop_last()) * 1024 <= u64::MAX
    } else {
        all_digits(s) && digits_value(s) <= u64::MAX
    }
}

/// The byte count a well-formed cache `size` field denotes.
pub open spec fn cache_size_value(s: Seq<u8>) -> int {
    if s.len() > 0 && (s.last() == 75 || s.last() == 107) {
        digits_value(s.drop_last()) * 1024
    } else {
        digits_value(s)
    }
}

/// Relies on String::from_utf8_lossy: decodes the bytes as UTF-8,
/// replacing invalid sequences; the result depends on the bytes alone.
#[verifier::external_body]
pub fn lossy_string(b: &[u8]) -> (r: String) {
    String::from_utf8_lossy(b).into_owned()
}

/// A run of digits never denotes a negative number.
pub(crate) proof fn lemma_digits_value_nonneg(s: Seq<u8>)
    requires
        forall|j: int| 0 <= j < s.len() ==> is_digit(#[trigger] s[j]),
    ensures
        digits_value(s) >= 0,
    decreases s.len(),
{
    if s.len() > 0 {
        assert(forall|j: int|
            0 <= j < s.drop_last().len() ==> is_digit(#[trigger] s.drop_last()[j]));
        lemma_digits_value_nonneg(s.drop_last());
        assert(digits_value(s.drop_last()) * 10 >= 0) by (nonlinear_arith)
            requires
                digits_value(s.drop_last()) >= 0,
        ;
    }
}

/// A longer digit prefix never denotes a smaller number.
proof fn lemma_digits_value_monotone(s: Seq<u8>, i: int)
    requires
        0 <= i <= s.len(),
        forall|j: int| 0 <= j < s.len() ==> is_digit(#[trigger] s[j]),
    ensures
        digits_value(s.subrange(0, i)) <= digits_value(s),
    decreases s.len() - i,
{
    if i < s.len() {
        lemma_digits_prefix_step(s, i);
        lemma_digits_value_monotone(s, i + 1);
        assert(forall|j: int|
            0 <= j < s.subrange(0, i).len() ==> is_digit(#[trigger] s.subrange(0, i)[j]));
        lemma_digits_value_nonneg(s.subrange(0, i));
        let v = digits_value(s.subrange(0, i));
        assert(v <= v * 10 + (s[i] - 48)) by (nonlinear_arith)
            requires
                v >= 0,
                is_digit(s[i]),
        ;
    } else {
        assert(s.subrange(0, i) =~= s);
    }
}

} // verus!
