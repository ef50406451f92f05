//! Memory facts: the counter-file parser and the pool aggregator, with
//! human-readable byte formatting.

use vstd::prelude::*;
use vstd::string::StrSliceExecFns;
use vstd::string::StringExecFns;

use crate::text::all_digits;
use crate::text::dec_str;
use crate::text::dec_val;
use crate::text::digit_char;
use crate::text::ends_with_str;
use crate::text::find_from;
use crate::text::find_idx;
use crate::text::lower_seq;
use crate::text::parse_u64;
use crate::text::push_char;
use crate::text::skip_ws;
use crate::text::skip_ws_from;
use crate::text::split_from;
use crate::text::split_str;
use crate::text::str_eq;
use crate::text::to_ascii_lower;
use crate::text::token_end;
use crate::text::token_end_from;
use crate::text::u64_to_dec;

verus! {

// ---------------------------------------------------------------------
// Counter parsing: `Label:<blank>value<optional unit>` lines.
// ---------------------------------------------------------------------

/// Byte multiplier for the unit token that follows the numeric value.
/// Unrecognized units (and no unit at all) count as plain bytes.
pub open spec fn unit_multiplier(u: Seq<char>) -> nat {
    if u == "kB"@ {
        1024
    } else if u == "mB"@ {
        1000000
    } else if u == "MB"@ {
        1000000
    } else {
        1
    }
}

/// One counter line: the label before the first `:`, then a decimal value
/// and an optional unit token.  Malformed lines (no `:`, no numeric first
/// token, or a byte count that does not fit) yield nothing.
pub open spec fn parse_meminfo_line(line: Seq<char>) -> Option<(Seq<char>, u64)> {
    let ci = find_idx(line, ':', 0);
    if ci >= line.len() {
        None
    } else {
        let label = line.subrange(0, ci);
        let rest = line.subrange(ci + 1, line.len() as int);
        let a = skip_ws(rest, 0);
        let b = token_end(rest, a);
        if a >= b {
            None
        } else {
            let tok = rest.subrange(a, b);
            if all_digits(tok) && dec_val(tok) <= u64::MAX {
                let c2 = skip_ws(rest, b);
                let d2 = token_end(rest, c2);
                let mult = unit_multiplier(rest.subrange(c2, d2));
                if dec_val(tok) * mult <= u64::MAX {
                    Some((label, (dec_val(tok) * mult) as u64))
                } else {
                    None
                }
            } else {
                None
            }
        }
    }
}

/// First position holding key `k` at or after `from`, or the length of
/// the list when there is none.
pub open spec fn assoc_idx(m: Seq<(Seq<char>, u64)>, k: Seq<char>, from: int) -> int
    decreases m.len() - from,
{
    if from < 0 || from >= m.len() {
        m.len() as int
    } else if m[from].0 == k {
        from
    } else {
        assoc_idx(m, k, from + 1)
    }
}

/// The value stored under key `k`, if any.
pub open spec fn lookup(m: Seq<(Seq<char>, u64)>, k: Seq<char>) -> Option<u64> {
    let i = assoc_idx(m, k, 0);
    if 0 <= i < m.len() {
        Some(m[i].1)
    } else {
        None
    }
}

/// Stores `v` under `k`: overwrites the value in place when the key is
/// present, else appends the pair.
pub open spec fn upsert(m: Seq<(Seq<char>, u64)>, k: Seq<char>, v: u64) -> Seq<(Seq<char>, u64)> {
    let i = assoc_idx(m, k, 0);
    if 0 <= i < m.len() {
        m.update(i, (k, v))
    } else {
        m.push((k, v))
    }
}

/// Folds the parsed counter lines, in order, into a keyed list; a
/// repeated label keeps its first position but takes the last value.
pub open spec fn counters_of_lines(lines: Seq<Seq<char>>) -> Seq<(Seq<char>, u64)>
    decreases lines.len(),
{
    if lines.len() == 0 {
        seq![]
    } else {
        let prev = counters_of_lines(lines.drop_last());
        match parse_meminfo_line(lines.last()) {
            Some(kv) => upsert(prev, kv.0, kv.1),
            None => prev,
        }
    }
}

/// The counter map of a whole counter file.
pub open spec fn meminfo_counters(text: Seq<char>) -> Seq<(Seq<char>, u64)> {
    counters_of_lines(split_from(text, '\n', 0))
}

/// No two entries of the list share a key.
pub open spec fn distinct_keys(m: Seq<(Seq<char>, u64)>) -> bool {
    forall|a: int, b: int| 0 <= a < b < m.len() ==> (#[trigger] m[a]).0 != (#[trigger] m[b]).0
}

/// `assoc_idx` stays within bounds, finds `k`, and skips nothing.
pub proof fn lemma_assoc_idx(m: Seq<(Seq<char>, u64)>, k: Seq<char>, from: int)
    requires
        0 <= from <= m.len(),
    ensures
        from <= assoc_idx(m, k, from) <= m.len(),
        assoc_idx(m, k, from) < m.len() ==> m[assoc_idx(m, k, from)].0 == k,
        forall|j: int| from <= j < assoc_idx(m, k, from) ==> m[j].0 != k,
    decreases m.len() - from,
{
    if from < m.len() && m[from].0 != k {
        lemma_assoc_idx(m, k, from + 1);
    }
}

/// Storing a value never duplicates a key.
pub proof fn lemma_upsert_distinct(m: Seq<(Seq<char>, u64)>, k: Seq<char>, v: u64)
    requires
        distinct_keys(m),
    ensures
        distinct_keys(upsert(m, k, v)),
{
    lemma_assoc_idx(m, k, 0);
    let i = assoc_idx(m, k, 0);
    let r = upsert(m, k, v);
    if 0 <= i < m.len() {
        assert forall|a: int, b: int| 0 <= a < b < r.len() implies (#[trigger] r[a]).0
            != (#[trigger] r[b]).0 by {
            if a != i {
                assert(r[a] == m[a]);
            }
            if b != i {
                assert(r[b] == m[b]);
            }
            assert(m[i].0 == k);
        }
    } else {
        assert forall|a: int, b: int| 0 <= a < b < r.len() implies (#[trigger] r[a]).0
            != (#[trigger] r[b]).0 by {
            assert(r[a] == m[a]);
            if b < m.len() {
                assert(r[b] == m[b]);
            }
        }
    }
}

/// The counter map of any line sequence carries each label once.
pub proof fn lemma_counters_distinct(lines: Seq<Seq<char>>)
    ensures
        distinct_keys(counters_of_lines(lines)),
    decreases lines.len(),
{
    if lines.len() > 0 {
        lemma_counters_distinct(lines.drop_last());
        match parse_meminfo_line(lines.last()) {
            Some(kv) => {
                lemma_upsert_distinct(counters_of_lines(lines.drop_last()), kv.0, kv.1);
            },
            None => {},
        }
    }
}

/// One counter line, as `parse_meminfo_line` describes it.
pub fn parse_counter_line(line: &str) -> (r: Option<(String, u64)>)
    ensures
        match r {
            Some(p) => parse_meminfo_line(line@) == Some((p.0@, p.1)),
            None => parse_meminfo_line(line@) is None,
        },
{
    let len = line.unicode_len();
    let ci = find_from(line, ':', 0);
    if ci >= len {
        return None;
    }
    let label = String::from_str(line.substring_char(0, ci));
    let rest = line.substring_char(ci + 1, len);
    let a = skip_ws_from(rest, 0);
    let b = token_end_from(rest, a);
    if a >= b {
        return None;
    }
    let tok = rest.substring_char(a, b);
    let val = match parse_u64(tok) {
        Some(v) => v,
        None => {
            return None;
        },
    };
    let c2 = skip_ws_from(rest, b);
    let d2 = token_end_from(rest, c2);
    let unit = rest.substring_char(c2, d2);
    let mult: u64 = if str_eq(unit, "kB") {
        1024
    } else if str_eq(unit, "mB") {
        1000000
    } else if str_eq(unit, "MB") {
        1000000
    } else {
        1
    };
    match val.checked_mul(mult) {
        Some(total) => Some((label, total)),
        None => None,
    }
}

/// First position of key `k`, as `assoc_idx` describes it.
fn assoc_find(m: &Vec<(String, u64)>, k: &str) -> (r: usize)
    ensures
        r == assoc_idx(m.deep_view(), k@, 0),
        r <= m@.len(),
{
    let n = m.len();
    let mut i: usize = 0;
    while i < n
        invariant
            n == m@.len(),
            i <= n,
            assoc_idx(m.deep_view(), k@, 0) == assoc_idx(m.deep_view(), k@, i as int),
        decreases n - i,
    {
        if str_eq(m[i].0.as_str(), k) {
            proof {
                lemma_assoc_idx(m.deep_view(), k@, i as int);
            }
            return i;
        }
        i = i + 1;
    }
    proof {
        lemma_assoc_idx(m.deep_view(), k@, i as int);
    }
    n
}

/// The value stored under `k`, as `lookup` describes it.
pub fn assoc_get(m: &Vec<(String, u64)>, k: &str) -> (r: Option<u64>)
    ensures
        r == lookup(m.deep_view(), k@),
{
    let i = assoc_find(m, k);
    if i < m.len() {
        Some(m[i].1)
    } else {
        None
    }
}

/// Stores `v` under `k`, as `upsert` describes it.
fn upsert_counter(m: &mut Vec<(String, u64)>, k: String, v: u64)
    ensures
        final(m).deep_view() == upsert(old(m).deep_view(), k@, v),
{
    let ghost pre = *m;
    let ghost kv = k@;
    let i = assoc_find(m, k.as_str());
    if i < m.len() {
        let _gone = m.remove(i);
        m.insert(i, (k, v));
        proof {
            assert(m@ =~= pre@.update(i as int, (k, v)));
            assert forall|j: int| 0 <= j < m@.len() implies m.deep_view()[j] == upsert(
                pre.deep_view(),
                kv,
                v,
            )[j] by {
                if j != i {
                    assert(m@[j] == pre@[j]);
                }
            }
            assert(m.deep_view() =~= upsert(pre.deep_view(), kv, v));
        }
    } else {
        m.push((k, v));
        proof {
            assert forall|j: int| 0 <= j < m@.len() implies m.deep_view()[j] == upsert(
                pre.deep_view(),
                kv,
                v,
            )[j] by {
                if j < pre@.len() {
                    assert(m@[j] == pre@[j]);
                }
            }
            assert(m.deep_view() =~= upsert(pre.deep_view(), kv, v));
        }
    }
}

/// Parses a whole counter file into a keyed byte-count list, as
/// `meminfo_counters` describes it.  Malformed lines are skipped; a
/// repeated label takes its last value.
pub fn parse_meminfo(contents: &str) -> (r: Vec<(String, u64)>)
    ensures
        r.deep_view() == meminfo_counters(contents@),
        distinct_keys(r.deep_view()),
{
    proof {
        lemma_counters_distinct(split_from(contents@, '\n', 0));
    }
    let lines = split_str(contents, '\n');
    let n = lines.len();
    let mut out: Vec<(String, u64)> = Vec::new();
    let mut i: usize = 0;
    while i < n
        invariant
            n == lines@.len(),
            i <= n,
            lines.deep_view() == split_from(contents@, '\n', 0),
            out.deep_view() == counters_of_lines(lines.deep_view().take(i as int)),
        decreases n - i,
    {
        proof {
            assert(lines.deep_view().take(i + 1).drop_last() =~= lines.deep_view().take(i as int));
            assert(lines.deep_view().take(i + 1).last() == lines.deep_view()[i as int]);
            assert(lines.deep_view()[i as int] == lines@[i as int]@);
        }
        match parse_counter_line(lines[i].as_str()) {
            Some(p) => {
                upsert_counter(&mut out, p.0, p.1);
            },
            None => {},
        }
        i = i + 1;
    }
    proof {
        assert(lines.deep_view().take(n as int) =~= lines.deep_view());
    }
    out
}

// ---------------------------------------------------------------------
// Byte formatting.
// ---------------------------------------------------------------------

/// Which binary unit a byte count is displayed in: the largest power of
/// 1024 not above it, capped at the table's last entry.
pub open spec fn unit_index(n: nat) -> nat {
    if n < 1024 {
        0
    } else if n < 1048576 {
        1
    } else if n < 1073741824 {
        2
    } else if n < 1099511627776 {
        3
    } else if n < 1125899906842624 {
        4
    } else {
        5
    }
}

/// The byte count of one displayed unit.
pub open spec fn unit_base(u: nat) -> nat {
    if u == 0 {
        1
    } else if u == 1 {
        1024
    } else if u == 2 {
        1048576
    } else if u == 3 {
        1073741824
    } else if u == 4 {
        1099511627776
    } else {
        1125899906842624
    }
}

/// The unit's display name.
pub open spec fn unit_chars(u: nat) -> Seq<char> {
    if u == 0 {
        seq!['B']
    } else if u == 1 {
        seq!['K', 'i', 'B']
    } else if u == 2 {
        seq!['M', 'i', 'B']
    } else if u == 3 {
        seq!['G', 'i', 'B']
    } else if u == 4 {
        seq!['T', 'i', 'B']
    } else {
        seq!['P', 'i', 'B']
    }
}

/// A two-digit, zero-padded decimal rendering.
pub open spec fn two_digits(f: nat) -> Seq<char>
    recommends
        f < 100,
{
    seq![digit_char(f / 10), digit_char(f % 10)]
}

/// Human-readable byte count: value scaled to its unit, with 0 decimals
/// for plain bytes or a scaled value of at least 100, 1 decimal from 10
/// up, else 2; fractions are truncated.
pub open spec fn format_bytes_spec(n: nat) -> Seq<char> {
    let u = unit_index(n);
    let base = unit_base(u);
    let ip = n / base;
    if u == 0 {
        dec_str(n) + seq![' '] + unit_chars(0)
    } else if ip >= 100 {
        dec_str(ip) + seq![' '] + unit_chars(u)
    } else if ip >= 10 {
        dec_str(ip) + seq!['.', digit_char((n * 10 / base) % 10)] + seq![' '] + unit_chars(u)
    } else {
        dec_str(ip) + seq!['.'] + two_digits((n * 100 / base) % 100) + seq![' '] + unit_chars(u)
    }
}

/// Used capacity as a percentage with two decimals and a trailing `%`;
/// a zero total reads as zero use.
pub open spec fn pct_str(used: u64, total: u64) -> Seq<char> {
    if total == 0 {
        seq!['0', '.', '0', '0', '%']
    } else {
        let p = (used as int) * 10000 / (total as int);
        dec_str((p / 100) as nat) + seq!['.'] + two_digits((p % 100) as nat) + seq!['%']
    }
}

/// A growing byte count never moves to a smaller display unit.
pub proof fn lemma_unit_index_monotonic(a: nat, b: nat)
    requires
        a <= b,
    ensures
        unit_index(a) <= unit_index(b),
{
}

/// Scaled rendering for byte counts of one KiB and up.
fn format_scaled(n: u64, base: u64, unit: &str) -> (r: String)
    requires
        unit_index(n as nat) >= 1,
        base == unit_base(unit_index(n as nat)),
        unit@ == seq![' '] + unit_chars(unit_index(n as nat)),
    ensures
        r@ == format_bytes_spec(n as nat),
{
    let ip = n / base;
    if ip >= 100 {
        let mut out = u64_to_dec(ip);
        out.append(unit);
        proof {
            assert(out@ =~= format_bytes_spec(n as nat));
        }
        out
    } else if ip >= 10 {
        let frac = ((n as u128 * 10 / (base as u128)) % 10) as u64;
        let mut out = u64_to_dec(ip);
        push_char(&mut out, '.');
        push_char(&mut out, (48 + frac as u8) as char);
        out.append(unit);
        proof {
            assert(out@ =~= format_bytes_spec(n as nat));
        }
        out
    } else {
        let fr = ((n as u128 * 100 / (base as u128)) % 100) as u64;
        let mut out = u64_to_dec(ip);
        push_char(&mut out, '.');
        push_char(&mut out, (48 + (fr / 10) as u8) as char);
        push_char(&mut out, (48 + (fr % 10) as u8) as char);
        out.append(unit);
        proof {
            assert(out@ =~= format_bytes_spec(n as nat));
        }
        out
    }
}

/// Human-readable byte count, as `format_bytes_spec` describes it.
pub fn format_bytes(n: u64) -> (r: String)
    ensures
        r@ == format_bytes_spec(n as nat),
{
    if n < 1024 {
        let mut out = u64_to_dec(n);
        out.append(" B");
        proof {
            reveal_strlit(" B");
            assert(" B"@ =~= seq![' '] + unit_chars(0));
            assert(out@ =~= format_bytes_spec(n as nat));
        }
        out
    } else if n < 1048576 {
        proof {
            reveal_strlit(" KiB");
            assert(" KiB"@ =~= seq![' '] + unit_chars(1));
        }
        format_scaled(n, 1024, " KiB")
    } else if n < 1073741824 {
        proof {
            reveal_strlit(" MiB");
            assert(" MiB"@ =~= seq![' '] + unit_chars(2));
        }
        format_scaled(n, 1048576, " MiB")
    } else if n < 1099511627776 {
        proof {
            reveal_strlit(" GiB");
            assert(" GiB"@ =~= seq![' '] + unit_chars(3));
        }
        format_scaled(n, 1073741824, " GiB")
    } else if n < 1125899906842624 {
        proof {
            reveal_strlit(" TiB");
            assert(" TiB"@ =~= seq![' '] + unit_chars(4));
        }
        format_scaled(n, 1099511627776, " TiB")
    } else {
        proof {
            reveal_strlit(" PiB");
            assert(" PiB"@ =~= seq![' '] + unit_chars(5));
        }
        format_scaled(n, 1125899906842624, " PiB")
    }
}

/// Capacity percentage, as `pct_str` describes it.
pub fn pct_string(used: u64, total: u64) -> (r: String)
    requires
        used <= total,
    ensures
        r@ == pct_str(used, total),
{
    if total == 0 {
        let mut out = String::new();
        push_char(&mut out, '0');
        push_char(&mut out, '.');
        push_char(&mut out, '0');
        push_char(&mut out, '0');
        push_char(&mut out, '%');
        proof {
            assert(out@ =~= pct_str(used, total));
        }
        out
    } else {
        assert((used as int) * 10000 / (total as int) <= 10000) by (nonlinear_arith)
            requires
                used <= total,
                total > 0,
        ;
        let p = ((used as u128) * 10000 / (total as u128)) as u64;
        let ipart = p / 100;
        let fpart = p % 100;
        let mut out = u64_to_dec(ipart);
        push_char(&mut out, '.');
        push_char(&mut out, (48 + (fpart / 10) as u8) as char);
        push_char(&mut out, (48 + (fpart % 10) as u8) as char);
        push_char(&mut out, '%');
        proof {
            assert(out@ =~= pct_str(used, total));
        }
        out
    }
}

// ---------------------------------------------------------------------
// Pool aggregation.
// ---------------------------------------------------------------------

/// The mathematical model of one emitted memory pool: its display name,
/// its byte total, and its available bytes already clamped to the total.
pub struct PoolModel {
    pub name: Seq<char>,
    pub total: u64,
    pub avail: u64,
}

/// The pool base of a counter label: labels ending in `Total` lose that
/// suffix and one trailing `_` separator; any other label names no pool.
pub open spec fn strip_total(key: Seq<char>) -> Option<Seq<char>> {
    if key.len() >= 5 && key.subrange(key.len() - 5, key.len() as int) == "Total"@ {
        let b = key.subrange(0, key.len() - 5);
        if b.len() > 0 && b.last() == '_' {
            Some(b.drop_last())
        } else {
            Some(b)
        }
    } else {
        None
    }
}

/// The available byte count for a pool base: the first hit among
/// `{base}Available`, `{base}_Available`, `{base}Free`, `{base}_Free`.
pub open spec fn avail_value(m: Seq<(Seq<char>, u64)>, base: Seq<char>) -> Option<u64> {
    let a1 = lookup(m, base + "Available"@);
    let a2 = lookup(m, base + "_Available"@);
    let a3 = lookup(m, base + "Free"@);
    let a4 = lookup(m, base + "_Free"@);
    if a1 is Some {
        a1
    } else if a2 is Some {
        a2
    } else if a3 is Some {
        a3
    } else {
        a4
    }
}

/// Canonical pool display name: `Mem` and `Swap` map to their customary
/// names, any other base is lower-cased verbatim.
pub open spec fn pool_name_of(base: Seq<char>) -> Seq<char> {
    if base == "Mem"@ {
        "system"@
    } else if base == "Swap"@ {
        "swap"@
    } else {
        lower_seq(base)
    }
}

/// The pool that one counter entry contributes, if any: the entry must
/// name a pool base, have a non-zero total, and have a resolvable
/// available counterpart; the available count is clamped to the total.
pub open spec fn pool_of_entry(m: Seq<(Seq<char>, u64)>, key: Seq<char>, total: u64) -> Option<
    PoolModel,
> {
    match strip_total(key) {
        None => None,
        Some(base) => if total == 0 {
            None
        } else {
            match avail_value(m, base) {
                None => None,
                Some(av) => Some(
                    PoolModel {
                        name: pool_name_of(base),
                        total,
                        avail: if av <= total {
                            av
                        } else {
                            total
                        },
                    },
                ),
            }
        },
    }
}

/// First position of a pool named `name` at or after `from`, or the
/// length of the list when there is none.
pub open spec fn pool_idx(s: Seq<PoolModel>, name: Seq<char>, from: int) -> int
    decreases s.len() - from,
{
    if from < 0 || from >= s.len() {
        s.len() as int
    } else if s[from].name == name {
        from
    } else {
        pool_idx(s, name, from + 1)
    }
}

/// Stores a pool under its name: replaces a pool of the same name in
/// place, else appends.
pub open spec fn upsert_pool(s: Seq<PoolModel>, p: PoolModel) -> Seq<PoolModel> {
    let i = pool_idx(s, p.name, 0);
    if 0 <= i < s.len() {
        s.update(i, p)
    } else {
        s.push(p)
    }
}

/// The pools contributed by the first `i` counter entries, in order.
pub open spec fn pools_upto(m: Seq<(Seq<char>, u64)>, i: int) -> Seq<PoolModel>
    decreases i,
{
    if i <= 0 || i > m.len() {
        seq![]
    } else {
        let prev = pools_upto(m, i - 1);
        match pool_of_entry(m, m[i - 1].0, m[i - 1].1) {
            None => prev,
            Some(p) => upsert_pool(prev, p),
        }
    }
}

/// All pools of a counter map.
pub open spec fn pools_of(m: Seq<(Seq<char>, u64)>) -> Seq<PoolModel> {
    pools_upto(m, m.len() as int)
}

/// `pool_idx` stays within bounds, finds the name, and skips nothing.
pub proof fn lemma_pool_idx(s: Seq<PoolModel>, name: Seq<char>, from: int)
    requires
        0 <= from <= s.len(),
    ensures
        from <= pool_idx(s, name, from) <= s.len(),
        pool_idx(s, name, from) < s.len() ==> s[pool_idx(s, name, from)].name == name,
        forall|j: int| from <= j < pool_idx(s, name, from) ==> s[j].name != name,
    decreases s.len() - from,
{
    if from < s.len() && s[from].name != name {
        lemma_pool_idx(s, name, from + 1);
    }
}

/// No two pools of the list share a display name.
pub open spec fn distinct_pool_names(s: Seq<PoolModel>) -> bool {
    forall|a: int, b: int| 0 <= a < b < s.len() ==> (#[trigger] s[a]).name != (#[trigger] s[b]).name
}

/// Storing a pool never duplicates a name.
pub proof fn lemma_upsert_pool_distinct(s: Seq<PoolModel>, p: PoolModel)
    requires
        distinct_pool_names(s),
    ensures
        distinct_pool_names(upsert_pool(s, p)),
{
    lemma_pool_idx(s, p.name, 0);
    let i = pool_idx(s, p.name, 0);
    let r = upsert_pool(s, p);
    if 0 <= i < s.len() {
        assert forall|a: int, b: int| 0 <= a < b < r.len() implies (#[trigger] r[a]).name
            != (#[trigger] r[b]).name by {
            if a != i {
                assert(r[a] == s[a]);
            }
            if b != i {
                assert(r[b] == s[b]);
            }
            assert(s[i].name == p.name);
        }
    } else {
        assert forall|a: int, b: int| 0 <= a < b < r.len() implies (#[trigger] r[a]).name
            != (#[trigger] r[b]).name by {
            assert(r[a] == s[a]);
            if b < s.len() {
                assert(r[b] == s[b]);
            }
        }
    }
}

/// The aggregated pools of any counter map carry each name once.
pub proof fn lemma_pools_distinct(m: Seq<(Seq<char>, u64)>, i: int)
    requires
        0 <= i <= m.len(),
    ensures
        distinct_pool_names(pools_upto(m, i)),
    decreases i,
{
    if i > 0 {
        lemma_pools_distinct(m, i - 1);
        match pool_of_entry(m, m[i - 1].0, m[i - 1].1) {
            None => {},
            Some(p) => {
                lemma_upsert_pool_distinct(pools_upto(m, i - 1), p);
            },
        }
    }
}

/// Every aggregated pool has a non-zero total and an available count no
/// larger than it.
pub proof fn lemma_pools_wf(m: Seq<(Seq<char>, u64)>, i: int)
    requires
        0 <= i <= m.len(),
    ensures
        forall|j: int|
            0 <= j < pools_upto(m, i).len() ==> (#[trigger] pools_upto(m, i)[j]).avail
                <= pools_upto(m, i)[j].total && pools_upto(m, i)[j].total > 0,
    decreases i,
{
    if i > 0 {
        lemma_pools_wf(m, i - 1);
        let prev = pools_upto(m, i - 1);
        match pool_of_entry(m, m[i - 1].0, m[i - 1].1) {
            None => {},
            Some(p) => {
                lemma_pool_idx(prev, p.name, 0);
                assert forall|j: int| 0 <= j < pools_upto(m, i).len() implies (#[trigger] pools_upto(
                    m,
                    i,
                )[j]).avail <= pools_upto(m, i)[j].total && pools_upto(m, i)[j].total > 0 by {
                    let k = pool_idx(prev, p.name, 0);
                    if 0 <= k < prev.len() {
                        assert(pools_upto(m, i) == prev.update(k, p));
                        if j != k {
                            assert(pools_upto(m, i)[j] == prev[j]);
                        }
                    } else {
                        assert(pools_upto(m, i) == prev.push(p));
                        if j < prev.len() {
                            assert(pools_upto(m, i)[j] == prev[j]);
                        }
                    }
                }
            },
        }
    }
}

/// Every emitted pool comes from some counter entry that carries a
/// pool-naming `Total` label, a non-zero total, and a resolvable
/// available counterpart: a total whose counterpart is absent from the
/// map, or a zero total, contributes no pool.
pub proof fn lemma_pool_provenance(m: Seq<(Seq<char>, u64)>, i: int, j: int)
    requires
        0 <= i <= m.len(),
        0 <= j < pools_upto(m, i).len(),
    ensures
        exists|k: int|
            0 <= k < i && pool_of_entry(m, (#[trigger] m[k]).0, m[k].1) == Some(
                pools_upto(m, i)[j],
            ),
    decreases i,
{
    let prev = pools_upto(m, i - 1);
    match pool_of_entry(m, m[i - 1].0, m[i - 1].1) {
        None => {
            lemma_pool_provenance(m, i - 1, j);
        },
        Some(p) => {
            let x = pool_idx(prev, p.name, 0);
            if 0 <= x < prev.len() {
                assert(pools_upto(m, i) == prev.update(x, p));
                if j == x {
                    assert(pool_of_entry(m, m[i - 1].0, m[i - 1].1) == Some(pools_upto(m, i)[j]));
                } else {
                    assert(pools_upto(m, i)[j] == prev[j]);
                    lemma_pool_provenance(m, i - 1, j);
                }
            } else {
                assert(pools_upto(m, i) == prev.push(p));
                if j == prev.len() {
                    assert(pool_of_entry(m, m[i - 1].0, m[i - 1].1) == Some(pools_upto(m, i)[j]));
                } else {
                    assert(pools_upto(m, i)[j] == prev[j]);
                    lemma_pool_provenance(m, i - 1, j);
                }
            }
        },
    }
}

/// One named memory pool: byte counts, used capacity, and their
/// human-readable renderings.
#[derive(Debug)]
pub struct MemoryType {
    pub name: String,
    pub total_bytes: u64,
    pub available_bytes: u64,
    pub used_bytes: u64,
    pub capacity_pct: String,
    pub total: String,
    pub available: String,
    pub used: String,
}

/// The memory facts document: pools in the order their totals appear in
/// the counter map, each under a unique name.
#[derive(Debug)]
pub struct MemoryFacts(pub Vec<MemoryType>);

/// The memory probe: reads the memory-statistics pseudo-file and
/// aggregates it into pools.
pub struct MemoryComponent {}

/// An emitted pool agrees with its model in every field, derived and
/// rendered alike.
pub open spec fn matches_pool(t: MemoryType, p: PoolModel) -> bool {
    &&& t.name@ == p.name
    &&& t.total_bytes == p.total
    &&& t.available_bytes == p.avail
    &&& t.used_bytes == p.total - p.avail
    &&& t.capacity_pct@ == pct_str((p.total - p.avail) as u64, p.total)
    &&& t.total@ == format_bytes_spec(p.total as nat)
    &&& t.available@ == format_bytes_spec(p.avail as nat)
    &&& t.used@ == format_bytes_spec((p.total - p.avail) as nat)
}

/// First position of a pool named `name`, tracked against the ghost pool
/// models.
fn pool_find(v: &Vec<MemoryType>, name: &str, Ghost(models): Ghost<Seq<PoolModel>>) -> (r: usize)
    requires
        v@.len() == models.len(),
        forall|j: int| 0 <= j < models.len() ==> (#[trigger] v@[j]).name@ == models[j].name,
    ensures
        r == pool_idx(models, name@, 0),
        r <= v@.len(),
{
    let n = v.len();
    let mut i: usize = 0;
    while i < n
        invariant
            n == v@.len(),
            v@.len() == models.len(),
            forall|j: int| 0 <= j < models.len() ==> (#[trigger] v@[j]).name@ == models[j].name,
            i <= n,
            pool_idx(models, name@, 0) == pool_idx(models, name@, i as int),
        decreases n - i,
    {
        if str_eq(v[i].name.as_str(), name) {
            proof {
                lemma_pool_idx(models, name@, i as int);
            }
            return i;
        }
        i = i + 1;
    }
    proof {
        lemma_pool_idx(models, name@, i as int);
    }
    n
}

/// Groups a counter map into named memory pools, as `pools_of` describes
/// it: one pool per label ending in `Total` that has a non-zero total and
/// a resolvable available counterpart.  Every pool's books balance:
/// available is clamped to the total and used is the exact difference.
pub fn build_memory_facts(counters: &Vec<(String, u64)>) -> (r: MemoryFacts)
    ensures
        r.0@.len() == pools_of(counters.deep_view()).len(),
        forall|i: int|
            0 <= i < r.0@.len() ==> matches_pool(
                #[trigger] r.0@[i],
                pools_of(counters.deep_view())[i],
            ),
        forall|i: int|
            0 <= i < r.0@.len() ==> (#[trigger] r.0@[i]).available_bytes <= r.0@[i].total_bytes
                && r.0@[i].used_bytes + r.0@[i].available_bytes == r.0@[i].total_bytes,
        forall|a: int, b: int|
            0 <= a < b < r.0@.len() ==> (#[trigger] r.0@[a]).name@ != (#[trigger] r.0@[b]).name@,
{
    let ghost cm = counters.deep_view();
    let n = counters.len();
    let mut out: Vec<MemoryType> = Vec::new();
    let mut k: usize = 0;
    proof {
        reveal_strlit("Total");
    }
    while k < n
        invariant
            n == counters@.len(),
            cm == counters.deep_view(),
            k <= n,
            out@.len() == pools_upto(cm, k as int).len(),
            forall|i: int|
                0 <= i < out@.len() ==> matches_pool(#[trigger] out@[i], pools_upto(cm, k as int)[i]),
        decreases n - k,
    {
        let key: &String = &counters[k].0;
        let total: u64 = counters[k].1;
        proof {
            assert(cm[k as int] == (key@, total));
            reveal_strlit("Total");
        }
        let ghost stepped = pools_upto(cm, k + 1);
        if ends_with_str(key.as_str(), "Total") && total > 0 {
            let keylen = key.as_str().unicode_len();
            let b0 = key.as_str().substring_char(0, keylen - 5);
            let b0len = keylen - 5;
            let base: &str = if b0len > 0 && b0.get_char(b0len - 1) == '_' {
                b0.substring_char(0, b0len - 1)
            } else {
                b0
            };
            proof {
                assert(b0@.drop_last() =~= key@.subrange(0, keylen - 5).subrange(
                    0,
                    keylen - 5 - 1,
                ));
                assert(strip_total(key@) == Some(base@));
            }
            let k1 = String::from_str(base).concat("Available");
            let k2 = String::from_str(base).concat("_Available");
            let k3 = String::from_str(base).concat("Free");
            let k4 = String::from_str(base).concat("_Free");
            let a1 = assoc_get(counters, k1.as_str());
            let avail_opt: Option<u64> = match a1 {
                Some(v) => Some(v),
                None => match assoc_get(counters, k2.as_str()) {
                    Some(v) => Some(v),
                    None => match assoc_get(counters, k3.as_str()) {
                        Some(v) => Some(v),
                        None => assoc_get(counters, k4.as_str()),
                    },
                },
            };
            proof {
                assert(avail_opt == avail_value(cm, base@));
            }
            match avail_opt {
                None => {
                    proof {
                        assert(pool_of_entry(cm, key@, total) is None);
                        assert(stepped =~= pools_upto(cm, k as int));
                    }
                },
                Some(av) => {
                    let clamped = if av <= total {
                        av
                    } else {
                        total
                    };
                    let used = total - clamped;
                    let name: String = if str_eq(base, "Mem") {
                        String::from_str("system")
                    } else if str_eq(base, "Swap") {
                        String::from_str("swap")
                    } else {
                        to_ascii_lower(base)
                    };
                    let ghost p = pool_of_entry(cm, key@, total).unwrap();
                    let t = MemoryType {
                        name,
                        total_bytes: total,
                        available_bytes: clamped,
                        used_bytes: used,
                        capacity_pct: pct_string(used, total),
                        total: format_bytes(total),
                        available: format_bytes(clamped),
                        used: format_bytes(used),
                    };
                    proof {
                        assert(matches_pool(t, p));
                    }
                    let ghost models = pools_upto(cm, k as int);
                    let ghost pre = out;
                    let i = pool_find(&out, t.name.as_str(), Ghost(models));
                    proof {
                        lemma_pool_idx(models, p.name, 0);
                    }
                    if i < out.len() {
                        let _gone = out.remove(i);
                        out.insert(i, t);
                        proof {
                            assert(out@ =~= pre@.update(i as int, t));
                            assert(stepped == upsert_pool(models, p));
                            assert(stepped == models.update(i as int, p));
                            assert forall|j: int| 0 <= j < out@.len() implies matches_pool(
                                #[trigger] out@[j],
                                stepped[j],
                            ) by {
                                if j != i {
                                    assert(out@[j] == pre@[j]);
                                    assert(stepped[j] == models[j]);
                                }
                            }
                        }
                    } else {
                        out.push(t);
                        proof {
                            assert(stepped == upsert_pool(models, p));
                            assert(stepped == models.push(p));
                            assert forall|j: int| 0 <= j < out@.len() implies matches_pool(
                                #[trigger] out@[j],
                                stepped[j],
                            ) by {
                                if j < pre@.len() {
                                    assert(out@[j] == pre@[j]);
                                    assert(stepped[j] == models[j]);
                                }
                            }
                        }
                    }
                },
            }
        } else {
            proof {
                if total == 0 {
                    assert(pool_of_entry(cm, key@, total) is None);
                } else {
                    assert(strip_total(key@) is None);
                }
                assert(stepped =~= pools_upto(cm, k as int));
            }
        }
        k = k + 1;
    }
    proof {
        lemma_pools_wf(cm, cm.len() as int);
        lemma_pools_distinct(cm, cm.len() as int);
    }
    MemoryFacts(out)
}

/// Parses and aggregates a whole counter file in one step.
pub fn memory_facts_from_text(contents: &str) -> (r: MemoryFacts)
    ensures
        r.0@.len() == pools_of(meminfo_counters(contents@)).len(),
        forall|i: int|
            0 <= i < r.0@.len() ==> matches_pool(
                #[trigger] r.0@[i],
                pools_of(meminfo_counters(contents@))[i],
            ),
        forall|i: int|
            0 <= i < r.0@.len() ==> (#[trigger] r.0@[i]).available_bytes <= r.0@[i].total_bytes
                && r.0@[i].used_bytes + r.0@[i].available_bytes == r.0@[i].total_bytes,
        forall|a: int, b: int|
            0 <= a < b < r.0@.len() ==> (#[trigger] r.0@[a]).name@ != (#[trigger] r.0@[b]).name@,
{
    let counters = parse_meminfo(contents);
    build_memory_facts(&counters)
}

impl MemoryFacts {
    /// The pool stored under `name`, if any.
    pub fn get(&self, name: &str) -> (r: Option<&MemoryType>)
        ensures
            match r {
                Some(t) => exists|i: int|
                    0 <= i < self.0@.len() && *t == self.0@[i] && (#[trigger] self.0@[i]).name@
                        == name@,
                None => forall|i: int| 0 <= i < self.0@.len() ==> (#[trigger] self.0@[i]).name@ != name@,
            },
    {
        let n = self.0.len();
        let mut i: usize = 0;
        while i < n
            invariant
                n == self.0@.len(),
                i <= n,
                forall|j: int| 0 <= j < i ==> (#[trigger] self.0@[j]).name@ != name@,
            decreases n - i,
        {
            if str_eq(self.0[i].name.as_str(), name) {
                return Some(&self.0[i]);
            }
            i = i + 1;
        }
        None
    }
}

impl MemoryComponent {
    /// A memory probe.
    pub fn new() -> (r: Self)
        ensures
            r == (MemoryComponent {  }),
    {
        MemoryComponent {  }
    }

    /// The merge key of this probe.
    pub fn name(&self) -> (r: &'static str)
        ensures
            r@ == "memory"@,
    {
        "memory"
    }
}

} // verus!
