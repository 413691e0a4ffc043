//! Recognising saved snapshot configurations by file name, and choosing
//! among them.
use vstd::prelude::*;

use crate::sort::{key_lt, lemma_sorted_permutation_strict, sort_keys};

verus! {

/// The bytes of `fractal_`, the prefix of snapshot file names.
pub open spec fn snapshot_prefix() -> Seq<u8> {
    seq![102u8, 114, 97, 99, 116, 97, 108, 95]
}

/// The bytes of `.json`, the suffix of snapshot configuration file names.
pub open spec fn json_suffix() -> Seq<u8> {
    seq![46u8, 106, 115, 111, 110]
}

/// The bytes of `json`.
pub open spec fn json_extension() -> Seq<u8> {
    seq![106u8, 115, 111, 110]
}

/// An ASCII decimal digit.
pub open spec fn is_digit(b: u8) -> bool {
    48 <= b <= 57
}

/// Value of a run of decimal digits.
pub open spec fn decimal_value(d: Seq<u8>) -> nat
    decreases d.len(),
{
    if d.len() == 0 {
        0
    } else {
        decimal_value(d.drop_last()) * 10 + (d.last() - 48) as nat
    }
}

/// `s` without a leading `+`.
pub open spec fn unsigned_part(s: Seq<u8>) -> Seq<u8> {
    if s.len() > 0 && s[0] == 43 {
        s.drop_first()
    } else {
        s
    }
}

/// Every byte of `d` is a decimal digit.
pub open spec fn all_digits(d: Seq<u8>) -> bool {
    forall|i: int| 0 <= i < d.len() ==> is_digit(#[trigger] d[i])
}

/// What parsing `s` as a `u64` gives: an optional `+` followed by one or
/// more decimal digits, whose value must fit in 64 bits.
pub open spec fn parse_u64(s: Seq<u8>) -> Option<u64> {
    let digits = unsigned_part(s);
    if digits.len() > 0 && all_digits(digits) && decimal_value(digits) <= u64::MAX {
        Some(decimal_value(digits) as u64)
    } else {
        None
    }
}

/// The timestamp in a snapshot file name `fractal_<timestamp>.json`.
pub open spec fn snapshot_stamp(name: Seq<u8>) -> Option<u64> {
    if name.len() >= 13 && name.subrange(0, 8) == snapshot_prefix() && name.subrange(
        name.len() - 5,
        name.len() as int,
    ) == json_suffix() {
        parse_u64(name.subrange(8, name.len() - 5))
    } else {
        None
    }
}

/// The file name `name` has the extension `ext`, in the sense of
/// `Path::extension`: the bytes after the last `.`, where that `.` is not
/// the first byte of the name.
pub open spec fn has_extension(name: Seq<u8>, ext: Seq<u8>) -> bool {
    exists|p: int|
        0 < p < name.len() && name[p] == 46 && (forall|q: int|
            p < q < name.len() ==> #[trigger] name[q] != 46) && #[trigger] name.subrange(
            p + 1,
            name.len() as int,
        ) == ext
}

/// The value of the digits before position `i` never exceeds the value of
/// all the digits.
proof fn lemma_decimal_prefix(d: Seq<u8>, i: int)
    requires
        0 <= i <= d.len(),
    ensures
        decimal_value(d.subrange(0, i)) <= decimal_value(d),
    decreases d.len(),
{
    if i < d.len() {
        lemma_decimal_prefix(d.drop_last(), i);
        assert(d.drop_last().subrange(0, i) =~= d.subrange(0, i));
    } else {
        assert(d.subrange(0, i) =~= d);
    }
}

/// Parses the timestamp out of a snapshot configuration file name of the
/// form `fractal_<timestamp>.json`; `None` for any other name.
pub fn snapshot_timestamp(name: &[u8]) -> (r: Option<u64>)
    ensures
        r == snapshot_stamp(name@),
{
    let len = name.len();
    if len < 13 {
        return None;
    }
    let prefix: [u8; 8] = [102, 114, 97, 99, 116, 97, 108, 95];
    let suffix: [u8; 5] = [46, 106, 115, 111, 110];
    let mut i: usize = 0;
    while i < 8
        invariant
            len == name@.len(),
            len >= 13,
            i <= 8,
            prefix@ == snapshot_prefix(),
            forall|k: int| 0 <= k < i ==> name@[k] == snapshot_prefix()[k],
        decreases 8 - i,
    {
        if name[i] != prefix[i] {
            assert(name@.subrange(0, 8)[i as int] != snapshot_prefix()[i as int]);
            return None;
        }
        i = i + 1;
    }
    assert(name@.subrange(0, 8) =~= snapshot_prefix());
    let mut j: usize = 0;
    while j < 5
        invariant
            len == name@.len(),
            len >= 13,
            j <= 5,
            suffix@ == json_suffix(),
            forall|k: int| 0 <= k < j ==> name@[len - 5 + k] == json_suffix()[k],
        decreases 5 - j,
    {
        if name[len - 5 + j] != suffix[j] {
            assert(name@.subrange(len - 5, len as int)[j as int] != json_suffix()[j as int]);
            return None;
        }
        j = j + 1;
    }
    assert(name@.subrange(len - 5, len as int) =~= json_suffix());
    let end = len - 5;
    let ghost s = name@.subrange(8, end as int);
    let start: usize = if name[8] == 43 { 9 } else { 8 };
    let ghost digits = name@.subrange(start as int, end as int);
    assert(digits =~= unsigned_part(s));
    assert(snapshot_stamp(name@) == parse_u64(s));
    if start == end {
        return None;
    }
    // Every byte must be a digit.
    let mut k: usize = start;
    while k < end
        invariant
            start <= k <= end,
            end == name@.len() - 5,
            digits == name@.subrange(start as int, end as int),
            digits == unsigned_part(s),
            snapshot_stamp(name@) == parse_u64(s),
            forall|q: int| 0 <= q < k - start ==> is_digit(#[trigger] digits[q]),
        decreases end - k,
    {
        let b = name[k];
        if !(48 <= b && b <= 57) {
            assert(!is_digit(digits[k - start]));
            return None;
        }
        k = k + 1;
    }
    // Accumulate the value, stopping as soon as it leaves the 64-bit range.
    let mut acc: u64 = 0;
    let mut k: usize = start;
    assert(digits.subrange(0, 0) =~= Seq::<u8>::empty());
    while k < end
        invariant
            start <= k <= end,
            end == name@.len() - 5,
            digits == name@.subrange(start as int, end as int),
            digits == unsigned_part(s),
            snapshot_stamp(name@) == parse_u64(s),
            forall|q: int| 0 <= q < digits.len() ==> is_digit(#[trigger] digits[q]),
            acc == decimal_value(digits.subrange(0, k - start)),
        decreases end - k,
    {
        assert(is_digit(digits[k - start]));
        let d = (name[k] - 48) as u64;
        let ghost pre = digits.subrange(0, k - start);
        let ghost next = digits.subrange(0, k - start + 1);
        assert(next.drop_last() =~= pre);
        assert(next.last() == name@[k as int]);
        match acc.checked_mul(10) {
            Some(m) => match m.checked_add(d) {
                Some(v) => {
                    acc = v;
                },
                None => {
                    proof {
                        lemma_decimal_prefix(digits, k - start + 1);
                    }
                    return None;
                },
            },
            None => {
                proof {
                    lemma_decimal_prefix(digits, k - start + 1);
                }
                return None;
            },
        }
        k = k + 1;
    }
    assert(digits.subrange(0, end - start) =~= digits);
    Some(acc)
}

/// Whether a file name has the extension `json`.
pub fn has_json_extension(name: &[u8]) -> (r: bool)
    ensures
        r == has_extension(name@, json_extension()),
{
    let len = name.len();
    if len <= 5 {
        proof {
            if has_extension(name@, json_extension()) {
                let p = choose|p: int|
                    0 < p < name@.len() && name@[p] == 46 && (forall|q: int|
                        p < q < name@.len() ==> #[trigger] name@[q] != 46) && #[trigger] name@.subrange(
                        p + 1,
                        name@.len() as int,
                    ) == json_extension();
                assert(name@.subrange(p + 1, name@.len() as int).len() == 4);
            }
        }
        return false;
    }
    let ok = name[len - 5] == 46 && name[len - 4] == 106 && name[len - 3] == 115 && name[len - 2]
        == 111 && name[len - 1] == 110;
    proof {
        if ok {
            let p = len - 5;
            assert(name@.subrange(p + 1, len as int) =~= json_extension());
            assert(forall|q: int| p < q < name@.len() ==> #[trigger] name@[q] != 46);
        } else if has_extension(name@, json_extension()) {
            let p = choose|p: int|
                0 < p < name@.len() && name@[p] == 46 && (forall|q: int|
                    p < q < name@.len() ==> #[trigger] name@[q] != 46) && #[trigger] name@.subrange(
                    p + 1,
                    name@.len() as int,
                ) == json_extension();
            assert(name@.subrange(p + 1, name@.len() as int).len() == 4);
            assert(p == len - 5);
            assert(name@.subrange(p + 1, name@.len() as int)[0] == name@[len - 4]);
            assert(name@.subrange(p + 1, name@.len() as int)[1] == name@[len - 3]);
            assert(name@.subrange(p + 1, name@.len() as int)[2] == name@[len - 2]);
            assert(name@.subrange(p + 1, name@.len() as int)[3] == name@[len - 1]);
        }
    }
    ok
}

/// Listing order of snapshots: newest first, and in the order found where
/// timestamps are equal.
pub open spec fn listed_before(stamps: Seq<u64>, i: int, j: int) -> bool {
    stamps[i] > stamps[j] || (stamps[i] == stamps[j] && i < j)
}

/// Some position of `order` holds `k`.
pub open spec fn lists(order: Seq<usize>, k: int) -> bool {
    exists|i: int| 0 <= i < order.len() && order[i] == k
}

spec fn listing_key(stamps: Seq<u64>, k: int) -> (u128, usize) {
    ((u64::MAX - stamps[k]) as u128, k as usize)
}

/// The order in which snapshot files are listed, given the timestamp of
/// each file in the order the directory was read: every position once,
/// newest first, ties in the order read.
pub fn snapshot_list_order(stamps: &Vec<u64>) -> (r: Vec<usize>)
    ensures
        r@.len() == stamps@.len(),
        forall|i: int| 0 <= i < r@.len() ==> #[trigger] r@[i] < stamps@.len(),
        forall|i: int, j: int|
            0 <= i < j < r@.len() ==> listed_before(
                stamps@,
                #[trigger] r@[i] as int,
                #[trigger] r@[j] as int,
            ),
        forall|k: int| 0 <= k < stamps@.len() ==> #[trigger] lists(r@, k),
{
    broadcast use vstd::seq_lib::group_to_multiset_ensures;

    let n = stamps.len();
    let mut keys: Vec<(u128, usize)> = Vec::new();
    let mut i: usize = 0;
    while i < n
        invariant
            n == stamps@.len(),
            i <= n,
            keys@.len() == i,
            forall|m: int| 0 <= m < i ==> #[trigger] keys@[m] == listing_key(stamps@, m),
        decreases n - i,
    {
        keys.push(((u64::MAX - stamps[i]) as u128, i));
        i = i + 1;
    }
    assert(keys@.no_duplicates()) by {
        assert forall|p: int, q: int|
            0 <= p < keys@.len() && 0 <= q < keys@.len() && p != q implies keys@[p] != keys@[q] by {
            assert(keys@[p].1 == p as usize);
            assert(keys@[q].1 == q as usize);
        }
    }
    let sorted = sort_keys(&keys);
    proof {
        lemma_sorted_permutation_strict(keys@, sorted@);
        assert forall|i: int| 0 <= i < sorted@.len() implies (#[trigger] sorted@[i]).1 < n && sorted@[i]
            == listing_key(stamps@, sorted@[i].1 as int) by {
            assert(sorted@.contains(sorted@[i]));
            assert(sorted@.to_multiset().count(sorted@[i]) > 0);
            assert(keys@.contains(sorted@[i]));
        }
    }
    let mut r: Vec<usize> = Vec::new();
    let mut i: usize = 0;
    while i < sorted.len()
        invariant
            sorted@.len() == n,
            i <= n,
            r@.len() == i,
            forall|m: int| 0 <= m < i ==> #[trigger] r@[m] == sorted@[m].1,
        decreases n - i,
    {
        r.push(sorted[i].1);
        i = i + 1;
    }
    proof {
        assert forall|i: int, j: int| 0 <= i < j < r@.len() implies listed_before(
            stamps@,
            #[trigger] r@[i] as int,
            #[trigger] r@[j] as int,
        ) by {
            assert(key_lt(sorted@[i], sorted@[j]));
            assert(sorted@[i] == listing_key(stamps@, sorted@[i].1 as int));
            assert(sorted@[j] == listing_key(stamps@, sorted@[j].1 as int));
        }
        assert forall|k: int| 0 <= k < n implies #[trigger] lists(r@, k) by {
            assert(keys@.contains(keys@[k]));
            assert(keys@.to_multiset().count(keys@[k]) > 0);
            assert(sorted@.contains(keys@[k]));
            let i = choose|i: int| 0 <= i < sorted@.len() && sorted@[i] == keys@[k];
            assert(r@[i] == k);
        }
    }
    r
}

/// The most recent snapshot: the position of the largest timestamp, the
/// first one read where several are equal; `None` when no file has a
/// timestamp.
pub fn latest_snapshot(stamps: &Vec<Option<u64>>) -> (r: Option<usize>)
    ensures
        r is None <==> forall|j: int| 0 <= j < stamps@.len() ==> #[trigger] stamps@[j] is None,
        r matches Some(i) ==> {
            &&& i < stamps@.len()
            &&& stamps@[i as int] is Some
            &&& forall|j: int|
                0 <= j < stamps@.len() && #[trigger] stamps@[j] is Some ==> stamps@[j]->0
                    <= stamps@[i as int]->0
            &&& forall|j: int|
                0 <= j < i && #[trigger] stamps@[j] is Some ==> stamps@[j]->0 < stamps@[i as int]->0
        },
{
    let mut best: Option<(u64, usize)> = None;
    let mut i: usize = 0;
    while i < stamps.len()
        invariant
            i <= stamps@.len(),
            best is None <==> forall|j: int| 0 <= j < i ==> #[trigger] stamps@[j] is None,
            best matches Some(b) ==> {
                &&& b.1 < i
                &&& stamps@[b.1 as int] == Some(b.0)
                &&& forall|j: int| 0 <= j < i && #[trigger] stamps@[j] is Some ==> stamps@[j]->0 <= b.0
                &&& forall|j: int|
                    0 <= j < b.1 && #[trigger] stamps@[j] is Some ==> stamps@[j]->0 < b.0
            },
        decreases stamps@.len() - i,
    {
        if let Some(ts) = stamps[i] {
            let better = match best {
                None => true,
                Some(b) => ts > b.0,
            };
            if better {
                best = Some((ts, i));
            }
        }
        i = i + 1;
    }
    match best {
        Some(b) => Some(b.1),
        None => None,
    }
}

/// Decimal digits of `t`, most significant first, without leading zeros.
pub open spec fn decimal_digits(t: nat) -> Seq<u8>
    decreases t,
{
    if t < 10 {
        seq![(48 + t) as u8]
    } else {
        decimal_digits(t / 10).push((48 + t % 10) as u8)
    }
}

/// The decimal digits of a number are digits and have its value.
pub proof fn lemma_decimal_digits(t: nat)
    ensures
        decimal_digits(t).len() > 0,
        all_digits(decimal_digits(t)),
        decimal_value(decimal_digits(t)) == t,
    decreases t,
{
    if t >= 10 {
        lemma_decimal_digits(t / 10);
        let d = decimal_digits(t);
        assert(d.drop_last() =~= decimal_digits(t / 10));
        vstd::arithmetic::div_mod::lemma_fundamental_div_mod(t as int, 10);
        assert(d.last() == (48 + t % 10) as u8);
        assert(decimal_value(d) == decimal_value(d.drop_last()) * 10 + (d.last() - 48) as nat);
        assert(decimal_value(d) == (t / 10) * 10 + t % 10);
        assert forall|i: int| 0 <= i < d.len() implies is_digit(#[trigger] d[i]) by {
            if i < d.len() - 1 {
                assert(d[i] == decimal_digits(t / 10)[i]);
            }
        }
    } else {
        let d = decimal_digits(t);
        assert(d.drop_last() =~= Seq::<u8>::empty());
        assert(decimal_value(d) == decimal_value(d.drop_last()) * 10 + (d.last() - 48) as nat);
    }
}

/// Appends the decimal digits of `t`.
fn push_decimal(out: &mut Vec<u8>, t: u64)
    ensures
        final(out)@ == old(out)@ + decimal_digits(t as nat),
    decreases t,
{
    if t >= 10 {
        push_decimal(out, t / 10);
    }
    out.push(48 + (t % 10) as u8);
    proof {
        if t >= 10 {
            assert(decimal_digits(t as nat) == decimal_digits((t / 10) as nat).push(
                (48 + t % 10) as u8,
            ));
        }
    }
    assert(final(out)@ =~= old(out)@ + decimal_digits(t as nat));
}

/// The file name `fractal_<timestamp>.<extension>` under which a snapshot
/// taken at `timestamp` is saved.
pub fn snapshot_file_name(timestamp: u64, extension: &[u8]) -> (name: Vec<u8>)
    ensures
        name@ == snapshot_prefix() + decimal_digits(timestamp as nat) + seq![46u8] + extension@,
{
    let mut name: Vec<u8> = vec![102, 114, 97, 99, 116, 97, 108, 95];
    assert(name@ =~= snapshot_prefix());
    push_decimal(&mut name, timestamp);
    name.push(46);
    let mut i: usize = 0;
    let ghost base = name@;
    while i < extension.len()
        invariant
            i <= extension@.len(),
            base == snapshot_prefix() + decimal_digits(timestamp as nat) + seq![46u8],
            name@ == base + extension@.subrange(0, i as int),
        decreases extension@.len() - i,
    {
        name.push(extension[i]);
        i = i + 1;
        assert(name@ =~= base + extension@.subrange(0, i as int));
    }
    assert(extension@.subrange(0, extension@.len() as int) =~= extension@);
    name
}

/// A snapshot saved under the file name made for its timestamp is found
/// again: the name has the extension `json` and parses back to the
/// timestamp.
pub proof fn lemma_snapshot_name_round_trip(timestamp: u64)
    ensures
        ({
            let name = snapshot_prefix() + decimal_digits(timestamp as nat) + seq![46u8]
                + json_extension();
            &&& snapshot_stamp(name) == Some(timestamp)
            &&& has_extension(name, json_extension())
        }),
{
    let digits = decimal_digits(timestamp as nat);
    lemma_decimal_digits(timestamp as nat);
    let name = snapshot_prefix() + digits + seq![46u8] + json_extension();
    let len = name.len() as int;
    assert(name.subrange(0, 8) =~= snapshot_prefix());
    assert(name.subrange(len - 5, len) =~= json_suffix());
    assert(name.subrange(8, len - 5) =~= digits);
    assert(is_digit(digits[0]));
    assert(unsigned_part(digits) =~= digits);
    let p = len - 5;
    assert(name[p] == 46);
    assert(name.subrange(p + 1, len) =~= json_extension());
    assert(forall|q: int| p < q < name.len() ==> #[trigger] name[q] != 46);
}

} // verus!
