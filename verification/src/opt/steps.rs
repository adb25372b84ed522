//! How many steps a scan of the code (see [scan_from]) takes when it ends.
//!
//! Between two offsets newly marked, a scan walks through offsets that it
//! does not mark; it can pass none of them twice, for from there on it would
//! walk in a circle for ever. So each walk is shorter than the code, and a
//! scan that ends uses fewer steps than [scan_budget] allows.

use vstd::prelude::*;

use super::standard::{label_offset, lemma_scan_left, scan_budget, scan_from};
use crate::lir::LirV;

verus! {

/// Number of unmarked offsets among the first `m`.
pub open spec fn unmarked(vp: Seq<bool>, m: int) -> int
    decreases m,
{
    if m <= 0 {
        0
    } else {
        unmarked(vp, m - 1) + if vp[m - 1] {
            0int
        } else {
            1int
        }
    }
}

proof fn lemma_unmarked_range(vp: Seq<bool>, m: int)
    requires
        0 <= m,
    ensures
        0 <= unmarked(vp, m) <= m,
    decreases m,
{
    if m > 0 {
        lemma_unmarked_range(vp, m - 1);
    }
}

proof fn lemma_unmarked_same(a: Seq<bool>, b: Seq<bool>, m: int)
    requires
        forall|i: int| 0 <= i < m ==> a[i] == b[i],
    ensures
        unmarked(a, m) == unmarked(b, m),
    decreases m,
{
    if m > 0 {
        lemma_unmarked_same(a, b, m - 1);
    }
}

/// Marking an unmarked offset leaves one fewer unmarked.
proof fn lemma_unmarked_mark(vp: Seq<bool>, o: int, m: int)
    requires
        0 <= o < m <= vp.len(),
        !vp[o],
    ensures
        unmarked(vp.update(o, true), m) == unmarked(vp, m) - 1,
    decreases m,
{
    if m - 1 > o {
        lemma_unmarked_mark(vp, o, m - 1);
    } else {
        lemma_unmarked_same(vp, vp.update(o, true), o);
    }
}

/// Whether `b` holds every mark of `a`.
pub open spec fn covers(a: Seq<bool>, b: Seq<bool>) -> bool {
    a.len() == b.len() && forall|i: int| 0 <= i < a.len() && a[i] ==> #[trigger] b[i]
}

/// More marks leave no more offsets unmarked.
proof fn lemma_unmarked_covers(a: Seq<bool>, b: Seq<bool>, m: int)
    requires
        covers(a, b),
        m <= a.len(),
    ensures
        unmarked(b, m) <= unmarked(a, m),
    decreases m,
{
    if m > 0 {
        lemma_unmarked_covers(a, b, m - 1);
        if a[m - 1] {
            assert(b[m - 1]);
        }
    }
}

/// A scan only adds marks.
pub proof fn lemma_scan_covers(vp: Seq<bool>, code: Seq<LirV>, off: int, scanning: bool, fuel: nat)
    ensures
        covers(vp, scan_from(vp, code, off, scanning, fuel).0),
    decreases fuel,
{
    if !(fuel == 0 || off < 0 || off >= code.len() || off >= vp.len() || vp[off]) {
        let sc = scanning || code[off] is Entry;
        let vp2 = if sc {
            vp.update(off, true)
        } else {
            vp
        };
        assert(covers(vp, vp2));
        let f = (fuel - 1) as nat;
        let r = scan_from(vp, code, off, scanning, fuel).0;
        match code[off] {
            LirV::Jump { condition, label } => match label_offset(code, label, 0) {
                None => {},
                Some(t) => if condition is Some {
                    lemma_scan_covers(vp2, code, t, true, f);
                    let (vp3, f3) = scan_from(vp2, code, t, true, f);
                    lemma_scan_left(vp2, code, t, true, f);
                    lemma_scan_covers(vp3, code, off + 1, sc, f3);
                    assert forall|i: int| 0 <= i < vp.len() && vp[i] implies #[trigger] r[i] by {
                        assert(vp2[i] && vp3[i]);
                    }
                } else {
                    lemma_scan_covers(vp2, code, t, sc, f);
                    assert forall|i: int| 0 <= i < vp.len() && vp[i] implies #[trigger] r[i] by {
                        assert(vp2[i]);
                    }
                },
            },
            LirV::Ret => {
                lemma_scan_covers(vp2, code, off + 1, false, f);
                assert forall|i: int| 0 <= i < vp.len() && vp[i] implies #[trigger] r[i] by {
                    assert(vp2[i]);
                }
            },
            _ => {
                lemma_scan_covers(vp2, code, off + 1, sc, f);
                assert forall|i: int| 0 <= i < vp.len() && vp[i] implies #[trigger] r[i] by {
                    assert(vp2[i]);
                }
            },
        }
    }
}

/// A label is found at or after where the search starts, within the code.
proof fn lemma_label_offset_range(code: Seq<LirV>, l: u64, i: int)
    requires
        0 <= i,
    ensures
        label_offset(code, l, i) matches Some(t) ==> i <= t < code.len(),
    decreases code.len() - i,
{
    if i < code.len() {
        lemma_label_offset_range(code, l, i + 1);
    }
}

/// Whether the scan, when not marking, passes `o` without marking anything:
/// `o` is an unmarked offset and no entry, a jump from it has a label, and a
/// conditional jump leads to an offset that is marked already.
pub open spec fn walking(vp: Seq<bool>, code: Seq<LirV>, o: int) -> bool {
    &&& 0 <= o < code.len()
    &&& o < vp.len()
    &&& !vp[o]
    &&& !(code[o] is Entry)
    &&& match code[o] {
        LirV::Jump { condition, label } => match label_offset(code, label, 0) {
            Some(t) => condition is None || t >= vp.len() || vp[t],
            None => false,
        },
        _ => true,
    }
}

/// Where the scan goes from an offset it passes without marking.
pub open spec fn walk_next(code: Seq<LirV>, o: int) -> int {
    match code[o] {
        LirV::Jump { condition, label } => if condition is Some {
            o + 1
        } else {
            match label_offset(code, label, 0) {
                Some(t) => t,
                None => o + 1,
            }
        },
        _ => o + 1,
    }
}

/// Passing an offset without marking takes one step.
proof fn lemma_walk_step(vp: Seq<bool>, code: Seq<LirV>, o: int, fuel: nat)
    requires
        walking(vp, code, o),
        fuel >= 1,
    ensures
        scan_from(vp, code, o, false, fuel) == scan_from(vp, code, walk_next(code, o), false, (fuel - 1) as nat),
{
    let f = (fuel - 1) as nat;
    if let LirV::Jump { condition, label } = code[o] {
        lemma_label_offset_range(code, label, 0);
        if let Some(t) = label_offset(code, label, 0) {
            if condition is Some {
                assert(scan_from(vp, code, t, true, f) == (vp, f));
                assert(scan_from(vp, code, o, false, fuel) == scan_from(vp, code, o + 1, false, f));
            } else {
                assert(scan_from(vp, code, o, false, fuel) == scan_from(vp, code, t, false, f));
            }
        }
    } else if code[o] is Ret {
        assert(scan_from(vp, code, o, false, fuel) == scan_from(vp, code, o + 1, false, f));
    } else {
        assert(scan_from(vp, code, o, false, fuel) == scan_from(vp, code, o + 1, false, f));
    }
}

/// A walk that comes back to where it was never ends.
proof fn lemma_walk_cycle(vp: Seq<bool>, code: Seq<LirV>, c: Seq<int>, j: int, fuel: nat)
    requires
        0 <= j < c.len(),
        forall|i: int| 0 <= i < c.len() ==> walking(vp, code, #[trigger] c[i]),
        forall|i: int| 0 <= i < c.len() - 1 ==> walk_next(code, #[trigger] c[i]) == c[i + 1],
        walk_next(code, c.last()) == c[0],
    ensures
        scan_from(vp, code, c[j], false, fuel).1 == 0,
    decreases fuel,
{
    if fuel > 0 {
        lemma_walk_step(vp, code, c[j], fuel);
        if j + 1 < c.len() {
            lemma_walk_cycle(vp, code, c, j + 1, (fuel - 1) as nat);
        } else {
            lemma_walk_cycle(vp, code, c, 0, (fuel - 1) as nat);
        }
    }
}

/// Distinct offsets below `n` are at most `n`.
proof fn lemma_distinct_below(s: Seq<int>, n: int)
    requires
        0 <= n,
        forall|i: int, j: int| 0 <= i < j < s.len() ==> s[i] != s[j],
        forall|i: int| 0 <= i < s.len() ==> 0 <= #[trigger] s[i] < n,
    ensures
        s.len() <= n,
{
    assert forall|i: int, j: int| 0 <= i < s.len() && 0 <= j < s.len() && i != j implies s[i] != s[j] by {
        if i > j {
            assert(s[j] != s[i]);
        }
    }
    assert(s.no_duplicates());
    s.unique_seq_to_set();
    vstd::set_lib::lemma_int_range(0, n);
    let r = vstd::set_lib::set_int_range(0, n);
    assert forall|x: int| s.to_set().contains(x) implies r.contains(x) by {
        let i = choose|i: int| 0 <= i < s.len() && s[i] == x;
        assert(0 <= s[i] < n);
    }
    vstd::set_lib::lemma_len_subset(s.to_set(), r);
}

/// The steps a scan may use while it marks `k` offsets of a code of length `n`.
pub open spec fn step_bound(n: int, k: int) -> int {
    n * (3 * k + 1) + k
}

proof fn lemma_step_bound_sum(n: int, a: int, b: int)
    ensures
        step_bound(n, a) + step_bound(n, b) == step_bound(n, a + b) + n,
{
    assert(n * (3 * a + 1) + n * (3 * b + 1) == n * (3 * (a + b) + 1) + n) by (nonlinear_arith);
}

proof fn lemma_step_bound_next(n: int, k: int)
    ensures
        step_bound(n, k + 1) == step_bound(n, k) + 3 * n + 1,
{
    assert(n * (3 * (k + 1) + 1) == n * (3 * k + 1) + 3 * n) by (nonlinear_arith);
}

/// Whether the scan marks `o` when it gets there.
pub open spec fn marking_start(vp: Seq<bool>, code: Seq<LirV>, o: int, scanning: bool) -> bool {
    0 <= o < code.len() && o < vp.len() && !vp[o] && (scanning || code[o] is Entry)
}

/// A scan that ends uses at most [step_bound] steps for the offsets it
/// marks, less the steps of the walk `path` that led it to `o` without
/// marking; starting at an offset it marks, it uses `2 * n` fewer.
proof fn lemma_scan_steps(vp: Seq<bool>, code: Seq<LirV>, o: int, sc: bool, fuel: nat, path: Seq<int>)
    requires
        vp.len() >= code.len(),
        scan_from(vp, code, o, sc, fuel).1 > 0,
        path.len() > 0 ==> !sc,
        forall|i: int| 0 <= i < path.len() ==> walking(vp, code, #[trigger] path[i]),
        forall|i: int| 0 <= i < path.len() - 1 ==> walk_next(code, #[trigger] path[i]) == path[i + 1],
        path.len() > 0 ==> walk_next(code, path.last()) == o,
        forall|i: int, j: int| 0 <= i < j < path.len() ==> path[i] != path[j],
    ensures
        ({
            let r = scan_from(vp, code, o, sc, fuel);
            let n = code.len() as int;
            fuel - r.1 + path.len() <= step_bound(n, unmarked(vp, n) - unmarked(r.0, n)) - (if path.len() == 0
                && marking_start(vp, code, o, sc) {
                2 * n
            } else {
                0
            })
        }),
    decreases fuel,
{
    let n = code.len() as int;
    let r = scan_from(vp, code, o, sc, fuel);
    lemma_scan_covers(vp, code, o, sc, fuel);
    lemma_unmarked_covers(vp, r.0, n);
    assert forall|i: int| 0 <= i < path.len() implies 0 <= #[trigger] path[i] < n by {
        assert(walking(vp, code, path[i]));
    }
    lemma_distinct_below(path, n);
    if o < 0 || o >= code.len() || o >= vp.len() || vp[o] {
        assert(r == (vp, fuel));
        assert(step_bound(n, 0) == n);
    } else {
        let scm = sc || code[o] is Entry;
        let f = (fuel - 1) as nat;
        if scm {
            let vp2 = vp.update(o, true);
            lemma_unmarked_mark(vp, o, n);
            if path.len() > 0 {
                assert(!walking(vp, code, o));
                assert forall|i: int| 0 <= i < path.len() + 1 implies 0 <= #[trigger] path.push(o)[i] < n by {
                    if i < path.len() {
                        assert(path.push(o)[i] == path[i]);
                    }
                }
                assert forall|i: int, j: int| 0 <= i < j < path.len() + 1 implies path.push(o)[i] != path.push(o)[j] by {
                    assert(path.push(o)[i] == path[i]);
                    if j == path.len() {
                        assert(walking(vp, code, path[i]));
                    }
                }
                lemma_distinct_below(path.push(o), n);
            }
            match code[o] {
                LirV::Jump { condition, label } => {
                    lemma_label_offset_range(code, label, 0);
                    match label_offset(code, label, 0) {
                        None => {},
                        Some(t) => if condition is Some {
                            let (vp3, f3) = scan_from(vp2, code, t, true, f);
                            lemma_scan_left(vp2, code, t, true, f);
                            lemma_scan_left(vp3, code, o + 1, scm, f3);
                            assert(r == scan_from(vp3, code, o + 1, scm, f3));
                            lemma_scan_steps(vp2, code, t, true, f, Seq::empty());
                            lemma_scan_covers(vp2, code, t, true, f);
                            lemma_scan_steps(vp3, code, o + 1, scm, f3, Seq::empty());
                            let kc = unmarked(vp2, n) - unmarked(vp3, n);
                            let kr = unmarked(vp3, n) - unmarked(r.0, n);
                            lemma_step_bound_sum(n, kc, kr);
                            lemma_step_bound_next(n, kc + kr);
                        } else {
                            lemma_scan_steps(vp2, code, t, scm, f, Seq::empty());
                            lemma_step_bound_next(n, unmarked(vp2, n) - unmarked(r.0, n));
                        },
                    }
                },
                LirV::Ret => {
                    lemma_scan_steps(vp2, code, o + 1, false, f, Seq::empty());
                    lemma_step_bound_next(n, unmarked(vp2, n) - unmarked(r.0, n));
                },
                _ => {
                    lemma_scan_steps(vp2, code, o + 1, scm, f, Seq::empty());
                    lemma_step_bound_next(n, unmarked(vp2, n) - unmarked(r.0, n));
                },
            }
        } else if walking(vp, code, o) {
            if exists|i: int| 0 <= i < path.len() && path[i] == o {
                let i = choose|i: int| 0 <= i < path.len() && path[i] == o;
                let c = path.subrange(i, path.len() as int);
                assert(c[0] == o);
                assert(c.last() == path.last());
                assert forall|m: int| 0 <= m < c.len() implies walking(vp, code, #[trigger] c[m]) by {
                    assert(c[m] == path[i + m]);
                }
                assert forall|m: int| 0 <= m < c.len() - 1 implies walk_next(code, #[trigger] c[m]) == c[m + 1] by {
                    assert(c[m] == path[i + m]);
                    assert(c[m + 1] == path[i + m + 1]);
                }
                lemma_walk_cycle(vp, code, c, 0, fuel);
                assert(false);
            }
            lemma_walk_step(vp, code, o, fuel);
            let p2 = path.push(o);
            assert forall|i: int| 0 <= i < p2.len() implies walking(vp, code, #[trigger] p2[i]) by {
                if i < path.len() {
                    assert(p2[i] == path[i]);
                }
            }
            assert forall|i: int| 0 <= i < p2.len() - 1 implies walk_next(code, #[trigger] p2[i]) == p2[i + 1] by {
                assert(p2[i] == path[i]);
                if i + 1 < path.len() {
                    assert(p2[i + 1] == path[i + 1]);
                }
            }
            assert forall|i: int, j: int| 0 <= i < j < p2.len() implies p2[i] != p2[j] by {
                assert(p2[i] == path[i]);
                if j < path.len() {
                    assert(p2[j] == path[j]);
                }
            }
            lemma_scan_steps(vp, code, walk_next(code, o), false, f, p2);
        } else {
            // a conditional jump that leads to an unmarked offset
            assert(!walking(vp, code, o));
            assert forall|i: int| 0 <= i < path.len() + 1 implies 0 <= #[trigger] path.push(o)[i] < n by {
                if i < path.len() {
                    assert(path.push(o)[i] == path[i]);
                }
            }
            assert forall|i: int, j: int| 0 <= i < j < path.len() + 1 implies path.push(o)[i] != path.push(o)[j] by {
                assert(path.push(o)[i] == path[i]);
                if j == path.len() {
                    assert(walking(vp, code, path[i]));
                }
            }
            lemma_distinct_below(path.push(o), n);
            match code[o] {
                LirV::Jump { condition, label } => {
                    lemma_label_offset_range(code, label, 0);
                    match label_offset(code, label, 0) {
                        None => {},
                        Some(t) => {
                            assert(condition is Some);
                            let (vp3, f3) = scan_from(vp, code, t, true, f);
                            lemma_scan_left(vp, code, t, true, f);
                            lemma_scan_left(vp3, code, o + 1, false, f3);
                            assert(r == scan_from(vp3, code, o + 1, false, f3));
                            assert(marking_start(vp, code, t, true));
                            lemma_scan_steps(vp, code, t, true, f, Seq::empty());
                            lemma_scan_covers(vp, code, t, true, f);
                            lemma_scan_steps(vp3, code, o + 1, false, f3, Seq::empty());
                            let kc = unmarked(vp, n) - unmarked(vp3, n);
                            let kr = unmarked(vp3, n) - unmarked(r.0, n);
                            lemma_step_bound_sum(n, kc, kr);
                        },
                    }
                },
                _ => {},
            }
        }
    }
}

/// A scan from the start that ends, however many steps it is given, uses
/// fewer steps than [scan_budget] allows (for codes of fewer than 2^30
/// elements).
pub proof fn lemma_scan_ends_within_budget(vp: Seq<bool>, code: Seq<LirV>, fuel: nat)
    requires
        vp.len() >= code.len(),
        code.len() < 0x4000_0000,
        scan_from(vp, code, 0, false, fuel).1 > 0,
    ensures
        fuel - scan_from(vp, code, 0, false, fuel).1 < scan_budget(code.len()),
{
    let n = code.len() as int;
    let r = scan_from(vp, code, 0, false, fuel);
    lemma_scan_steps(vp, code, 0, false, fuel, Seq::empty());
    lemma_scan_covers(vp, code, 0, false, fuel);
    lemma_unmarked_covers(vp, r.0, n);
    lemma_unmarked_range(vp, n);
    lemma_unmarked_range(r.0, n);
    let k = unmarked(vp, n) - unmarked(r.0, n);
    assert(0 <= k <= n);
    assert(n * (3 * k + 1) + k <= n * (3 * n + 1) + n) by (nonlinear_arith)
        requires
            0 <= k <= n,
    ;
    assert(n * (3 * n + 1) + n < 4 * (n + 1) * (n + 1)) by (nonlinear_arith)
        requires
            0 <= n,
    ;
}

} // verus!
