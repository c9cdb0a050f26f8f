//! Dependency resolution between mods: key normalisation and the load order.
use vstd::prelude::*;

use crate::text::{
    ascii_lower, chars_of, dll_lower, dll_lower_chars, dll_upper, dll_upper_chars, lemma_split_on_nonempty,
    lower_string_from_range, range_ends_with, split_on, string_from_range, strip_suffix, trim,
    trim_bounds,
};

verus! {

/// `name` trimmed, with one ".dll" or ".DLL" suffix removed, in ASCII lower case.
pub open spec fn spec_normalize_name(name: Seq<char>) -> Seq<char> {
    let t = trim(name);
    let without_ext = match strip_suffix(t, dll_lower()) {
        Some(x) => x,
        None => match strip_suffix(t, dll_upper()) {
            Some(x) => x,
            None => t,
        },
    };
    ascii_lower(without_ext)
}

/// The key by which a mod is found: its normalised display name, or its normalised
/// file name when the display name normalises to nothing.
pub open spec fn spec_mod_key(file_name: Seq<char>, display_name: Seq<char>) -> Seq<char> {
    if spec_normalize_name(display_name).len() == 0 {
        spec_normalize_name(file_name)
    } else {
        spec_normalize_name(display_name)
    }
}

/// Trims a name, drops one ".dll"/".DLL" suffix and lower-cases ASCII letters.
pub fn normalize_name(name: &str) -> (r: String)
    ensures
        r@ == spec_normalize_name(name@),
{
    let chars = chars_of(name);
    let (start, end) = trim_bounds(&chars);
    let ghost t = chars@.subrange(start as int, end as int);
    let lower = dll_lower_chars();
    let upper = dll_upper_chars();
    let stop = if range_ends_with(&chars, start, end, &lower) {
        end - 4
    } else if range_ends_with(&chars, start, end, &upper) {
        end - 4
    } else {
        end
    };
    proof {
        assert(t.subrange(0, stop - start) == chars@.subrange(start as int, stop as int));
    }
    lower_string_from_range(&chars, start, stop)
}

/// The lookup key of a mod: see `spec_mod_key`.
pub fn mod_key(file_name: &str, display_name: &str) -> (r: String)
    ensures
        r@ == spec_mod_key(file_name@, display_name@),
{
    let display_key = normalize_name(display_name);
    if display_key.as_str().is_empty() {
        normalize_name(file_name)
    } else {
        display_key
    }
}

/// The non-empty normalised names among `pieces`, in order.
pub open spec fn normalized_nonempty(pieces: Seq<Seq<char>>) -> Seq<Seq<char>>
    decreases pieces.len(),
{
    if pieces.len() == 0 {
        Seq::<Seq<char>>::empty()
    } else {
        let rest = normalized_nonempty(pieces.drop_last());
        let d = spec_normalize_name(pieces.last());
        if d.len() > 0 {
            rest.push(d)
        } else {
            rest
        }
    }
}

/// The dependency names in a `chumod_depends` string: its comma-separated pieces,
/// normalised, without the empty ones.
pub open spec fn spec_dependency_list(text: Seq<char>) -> Seq<Seq<char>> {
    normalized_nonempty(split_on(text, ','))
}

proof fn lemma_split_without_sep(s: Seq<char>, sep: char)
    requires
        !s.contains(sep),
    ensures
        split_on(s, sep) == seq![s],
    decreases s.len(),
{
    if s.len() > 0 {
        let d = s.drop_last();
        assert(!d.contains(sep)) by {
            if d.contains(sep) {
                let i = choose|i: int| 0 <= i < d.len() && d[i] == sep;
                assert(s[i] == sep);
            }
        }
        lemma_split_without_sep(d, sep);
        assert(s.last() != sep) by {
            assert(s[s.len() - 1] == s.last());
        }
        assert(d.push(s.last()) =~= s);
        assert(split_on(s, sep) =~= seq![s]);
    } else {
        assert(s =~= Seq::<char>::empty());
        assert(split_on(s, sep) =~= seq![s]);
    }
}

proof fn lemma_split_concat(a: Seq<char>, b: Seq<char>, sep: char)
    ensures
        split_on(a + seq![sep] + b, sep) == split_on(a, sep) + split_on(b, sep),
    decreases b.len(),
{
    let c = a + seq![sep] + b;
    if b.len() == 0 {
        assert(c =~= a.push(sep));
        assert(c.drop_last() =~= a);
        assert(split_on(c, sep) =~= split_on(a, sep) + split_on(b, sep));
    } else {
        let bd = b.drop_last();
        lemma_split_concat(a, bd, sep);
        assert(c.drop_last() =~= a + seq![sep] + bd);
        assert(c.last() == b.last());
        lemma_split_on_nonempty(bd, sep);
        let r1 = split_on(a, sep);
        let r2 = split_on(bd, sep);
        if b.last() == sep {
            assert(split_on(c, sep) =~= r1 + r2.push(Seq::<char>::empty()));
        } else {
            let r = r1 + r2;
            assert(r.update(r.len() - 1, r.last().push(b.last())) =~= r1 + r2.update(
                r2.len() - 1,
                r2.last().push(b.last()),
            ));
        }
        assert(split_on(c, sep) =~= split_on(a, sep) + split_on(b, sep));
    }
}

proof fn lemma_normalized_concat(p: Seq<Seq<char>>, q: Seq<Seq<char>>)
    ensures
        normalized_nonempty(p + q) == normalized_nonempty(p) + normalized_nonempty(q),
    decreases q.len(),
{
    if q.len() == 0 {
        assert(p + q =~= p);
        assert(normalized_nonempty(p) + normalized_nonempty(q) =~= normalized_nonempty(p));
    } else {
        lemma_normalized_concat(p, q.drop_last());
        assert((p + q).drop_last() =~= p + q.drop_last());
        assert((p + q).last() == q.last());
        let rp = normalized_nonempty(p);
        let rq = normalized_nonempty(q.drop_last());
        assert((rp + rq).push(spec_normalize_name(q.last())) =~= rp + rq.push(
            spec_normalize_name(q.last()),
        ));
    }
}

/// Reading a `chumod_depends` string: a text without commas names one dependency,
/// its normalised form (none when that is empty), and a comma splits the text into
/// two parts whose dependencies follow one another. Together: every comma-separated
/// name that does not normalise to nothing is read, the last one too, in order.
pub proof fn law_dependency_list(a: Seq<char>, b: Seq<char>)
    ensures
        !a.contains(',') ==> spec_dependency_list(a) == if spec_normalize_name(a).len() > 0 {
            seq![spec_normalize_name(a)]
        } else {
            Seq::<Seq<char>>::empty()
        },
        spec_dependency_list(a + seq![','] + b) == spec_dependency_list(a) + spec_dependency_list(b),
{
    if !a.contains(',') {
        lemma_split_without_sep(a, ',');
        let p = seq![a];
        assert(p.drop_last() =~= Seq::<Seq<char>>::empty());
        assert(normalized_nonempty(Seq::<Seq<char>>::empty()) =~= Seq::<Seq<char>>::empty());
        assert(normalized_nonempty(p.drop_last()) =~= Seq::<Seq<char>>::empty());
        assert(p.last() == a);
        assert(Seq::<Seq<char>>::empty().push(spec_normalize_name(a)) =~= seq![spec_normalize_name(a)]);
    }
    lemma_split_concat(a, b, ',');
    lemma_normalized_concat(split_on(a, ','), split_on(b, ','));
}

/// Splits a `chumod_depends` string on commas and normalises each name.
pub fn parse_dependency_list(text: &str) -> (r: Vec<String>)
    ensures
        r@.map_values(|d: String| d@) == spec_dependency_list(text@),
{
    let chars = chars_of(text);
    let ghost s = chars@;
    let mut out: Vec<String> = Vec::new();
    let mut piece_start: usize = 0;
    let mut i: usize = 0;
    proof {
        assert(s.take(0) == Seq::<char>::empty());
        assert(split_on(s.take(0), ',') == seq![Seq::<char>::empty()]);
        assert(split_on(s.take(0), ',').drop_last() =~= Seq::<Seq<char>>::empty());
    }
    while i < chars.len()
        invariant
            s == chars@,
            s == text@,
            piece_start <= i <= s.len(),
            split_on(s.take(i as int), ',').len() >= 1,
            split_on(s.take(i as int), ',').last() == s.subrange(piece_start as int, i as int),
            out@.map_values(|d: String| d@) == normalized_nonempty(
                split_on(s.take(i as int), ',').drop_last(),
            ),
        decreases s.len() - i,
    {
        let ghost prev = split_on(s.take(i as int), ',');
        assert(s.take(i + 1).drop_last() == s.take(i as int));
        assert(s.take(i + 1).last() == s[i as int]);
        if chars[i] == ',' {
            let piece = string_from_range(&chars, piece_start, i);
            let name = normalize_name(piece.as_str());
            let ghost old_out = out@;
            proof {
                assert(split_on(s.take(i + 1), ',') == prev.push(Seq::<char>::empty()));
                assert(prev.push(Seq::<char>::empty()).drop_last() == prev);
                assert(prev.drop_last().push(prev.last()) == prev);
            }
            if !name.as_str().is_empty() {
                out.push(name);
                proof {
                    assert(out@.map_values(|d: String| d@) =~= old_out.map_values(|d: String| d@).push(
                        name@,
                    ));
                }
            }
            piece_start = i + 1;
            proof {
                assert(s.subrange(piece_start as int, i + 1) =~= Seq::<char>::empty());
            }
        } else {
            proof {
                let cur = split_on(s.take(i + 1), ',');
                assert(cur == prev.update(prev.len() - 1, prev.last().push(s[i as int])));
                assert(cur.drop_last() =~= prev.drop_last());
                assert(s.subrange(piece_start as int, i + 1) =~= s.subrange(
                    piece_start as int,
                    i as int,
                ).push(s[i as int]));
            }
        }
        i = i + 1;
    }
    let piece = string_from_range(&chars, piece_start, chars.len());
    let name = normalize_name(piece.as_str());
    let ghost old_out = out@;
    proof {
        assert(s.take(s.len() as int) == s);
        let prev = split_on(s, ',');
        assert(prev.drop_last().push(prev.last()) == prev);
    }
    if !name.as_str().is_empty() {
        out.push(name);
        proof {
            assert(out@.map_values(|d: String| d@) =~= old_out.map_values(|d: String| d@).push(
                name@,
            ));
        }
    }
    out
}

/// A mod that was loaded and waits to be ordered among the others.
pub struct PendingMod {
    pub file_name: String,
    pub path: String,
    pub handle: usize,
    pub display_name: String,
    pub dependencies: Vec<String>,
}

/// Whether `dep` names mod `m`, by its key or by its normalised file name.
pub open spec fn key_matches(m: PendingMod, dep: Seq<char>) -> bool {
    spec_mod_key(m.file_name@, m.display_name@) == dep || spec_normalize_name(m.file_name@) == dep
}

/// The last index below `n` whose mod `dep` names.
pub open spec fn resolve_below(mods: Seq<PendingMod>, dep: Seq<char>, n: int) -> Option<int>
    decreases n,
{
    if n <= 0 {
        None
    } else if key_matches(mods[n - 1], dep) {
        Some(n - 1)
    } else {
        resolve_below(mods, dep, n - 1)
    }
}

/// The mod that a dependency name refers to: the last one that it names.
pub open spec fn resolve(mods: Seq<PendingMod>, dep: Seq<char>) -> Option<int> {
    resolve_below(mods, dep, mods.len() as int)
}

/// Dependency `k` of mod `v` refers to mod `u`.
pub open spec fn dep_refers(mods: Seq<PendingMod>, v: int, k: int, u: int) -> bool {
    resolve(mods, mods[v].dependencies@[k]@) == Some(u)
}

/// Mod `v` must be initialised after mod `u`: one of `v`'s dependencies refers to
/// `u`, and `u` is not `v` itself.
pub open spec fn must_follow(mods: Seq<PendingMod>, u: int, v: int) -> bool {
    &&& 0 <= u < mods.len()
    &&& 0 <= v < mods.len()
    &&& u != v
    &&& exists|k: int|
        0 <= k < mods[v].dependencies@.len() && #[trigger] dep_refers(mods, v, k, u)
}

/// The pair `(a, b)` occurs in `pairs`.
pub open spec fn has_pair(pairs: Seq<(usize, usize)>, a: int, b: int) -> bool {
    exists|e: int| 0 <= e < pairs.len() && pairs[e] == (a as usize, b as usize)
}

/// One of the first `k` dependencies of mod `v` refers to mod `u`.
pub open spec fn refers_before(mods: Seq<PendingMod>, v: int, k: int, u: int) -> bool {
    exists|kk: int| 0 <= kk < k && #[trigger] dep_refers(mods, v, kk, u)
}

/// `order` is a load order of `mods`: each index at most once, every mod after the
/// mods it must follow, and a mod left out only when a mod that it must follow is
/// left out too (that is, when it depends on a cycle).
pub open spec fn is_load_order(mods: Seq<PendingMod>, order: Seq<int>) -> bool {
    &&& forall|i: int| 0 <= i < order.len() ==> 0 <= #[trigger] order[i] < mods.len()
    &&& forall|i: int, j: int| 0 <= i < j < order.len() ==> order[i] != order[j]
    &&& forall|i: int, u: int|
        0 <= i < order.len() && #[trigger] must_follow(mods, u, order[i]) ==> exists|j: int|
            0 <= j < i && order[j] == u
    &&& forall|v: int|
        0 <= v < mods.len() && !order.contains(v) ==> exists|u: int|
            #[trigger] must_follow(mods, u, v) && !order.contains(u)
}

/// The position of the last mod before position `k` of `order` that mod `v` must
/// follow; -1 when there is none.
pub open spec fn last_pred_before(mods: Seq<PendingMod>, order: Seq<int>, v: int, k: int) -> int
    decreases k,
{
    if k <= 0 {
        -1
    } else if must_follow(mods, order[k - 1], v) {
        k - 1
    } else {
        last_pred_before(mods, order, v, k - 1)
    }
}

/// The position in `order` at which the mod at position `i` became ready: that of
/// the last mod it must follow, -1 when it must follow none.
pub open spec fn release(mods: Seq<PendingMod>, order: Seq<int>, i: int) -> int {
    last_pred_before(mods, order, order[i], i)
}

/// `order` takes the mods first-in, first-out: by the position at which each became
/// ready, and mods that became ready together by their index.
pub open spec fn fifo_order(mods: Seq<PendingMod>, order: Seq<int>) -> bool {
    forall|i: int, j: int|
        0 <= i < j < order.len() ==> #[trigger] release(mods, order, i) < #[trigger] release(
            mods,
            order,
            j,
        ) || (release(mods, order, i) == release(mods, order, j) && order[i] < order[j])
}

/// Positions from `k` on do not change what comes before them.
proof fn lemma_last_pred_prefix(mods: Seq<PendingMod>, order: Seq<int>, x: int, v: int, k: int)
    requires
        0 <= k <= order.len(),
    ensures
        last_pred_before(mods, order.push(x), v, k) == last_pred_before(mods, order, v, k),
    decreases k,
{
    if k > 0 {
        assert(order.push(x)[k - 1] == order[k - 1]);
        lemma_last_pred_prefix(mods, order, x, v, k - 1);
    }
}

/// Two orders that agree before `k` agree on the last predecessor before `k`.
proof fn lemma_last_pred_same_prefix(mods: Seq<PendingMod>, a: Seq<int>, b: Seq<int>, v: int, k: int)
    requires
        0 <= k <= a.len(),
        k <= b.len(),
        forall|j: int| 0 <= j < k ==> a[j] == b[j],
    ensures
        last_pred_before(mods, a, v, k) == last_pred_before(mods, b, v, k),
    decreases k,
{
    if k > 0 {
        lemma_last_pred_same_prefix(mods, a, b, v, k - 1);
    }
}

/// Positions in `[k1, k2)` that hold no predecessor of `v` do not move the last one.
proof fn lemma_last_pred_skip(mods: Seq<PendingMod>, order: Seq<int>, v: int, k1: int, k2: int)
    requires
        0 <= k1 <= k2 <= order.len(),
        forall|j: int| k1 <= j < k2 ==> !must_follow(mods, #[trigger] order[j], v),
    ensures
        last_pred_before(mods, order, v, k2) == last_pred_before(mods, order, v, k1),
    decreases k2 - k1,
{
    if k1 < k2 {
        assert(!must_follow(mods, order[k2 - 1], v));
        lemma_last_pred_skip(mods, order, v, k1, k2 - 1);
    }
}

/// The last predecessor before `k` lies before `k`.
proof fn lemma_last_pred_bounds(mods: Seq<PendingMod>, order: Seq<int>, v: int, k: int)
    requires
        0 <= k,
    ensures
        -1 <= last_pred_before(mods, order, v, k) < k,
    decreases k,
{
    if k > 0 {
        lemma_last_pred_bounds(mods, order, v, k - 1);
    }
}

/// Every mod of a load order `b` that is in a load order `a` too, position by
/// position: the first `p` mods of `a` are all in `b`.
proof fn lemma_included_in(mods: Seq<PendingMod>, a: Seq<int>, b: Seq<int>, p: int)
    requires
        is_load_order(mods, a),
        is_load_order(mods, b),
        0 <= p <= a.len(),
    ensures
        forall|i: int| 0 <= i < p ==> b.contains(#[trigger] a[i]),
    decreases p,
{
    if p > 0 {
        lemma_included_in(mods, a, b, p - 1);
        let v = a[p - 1];
        if !b.contains(v) {
            assert(0 <= v < mods.len());
            let u = choose|u: int| #[trigger] must_follow(mods, u, v) && !b.contains(u);
            assert(must_follow(mods, u, a[p - 1]));
            let j = choose|j: int| 0 <= j < p - 1 && a[j] == u;
            assert(b.contains(a[j]));
        }
    }
}

/// Two sequences without repetitions that hold the same elements are equally long.
proof fn lemma_same_elements_same_len(a: Seq<int>, b: Seq<int>)
    requires
        a.no_duplicates(),
        b.no_duplicates(),
        forall|x: int| a.contains(x) <==> b.contains(x),
    ensures
        a.len() == b.len(),
{
    a.unique_seq_to_set();
    b.unique_seq_to_set();
    assert(a.to_set() =~= b.to_set());
}

/// The load order is determined: two orders that are both load orders taken
/// first-in, first-out are the same.
pub proof fn law_load_order_unique(mods: Seq<PendingMod>, a: Seq<int>, b: Seq<int>)
    requires
        is_load_order(mods, a),
        fifo_order(mods, a),
        is_load_order(mods, b),
        fifo_order(mods, b),
    ensures
        a == b,
{
    lemma_included_in(mods, a, b, a.len() as int);
    lemma_included_in(mods, b, a, b.len() as int);
    assert forall|x: int| a.contains(x) <==> b.contains(x) by {
        if a.contains(x) {
            let i = choose|i: int| 0 <= i < a.len() && a[i] == x;
            assert(b.contains(a[i]));
        }
        if b.contains(x) {
            let i = choose|i: int| 0 <= i < b.len() && b[i] == x;
            assert(a.contains(b[i]));
        }
    }
    assert(a.no_duplicates());
    assert(b.no_duplicates());
    lemma_same_elements_same_len(a, b);
    lemma_orders_agree(mods, a, b, a.len() as int);
    assert(a =~= b);
}

/// Two first-in, first-out load orders with the same mods agree position by
/// position, up to `p`.
proof fn lemma_orders_agree(mods: Seq<PendingMod>, a: Seq<int>, b: Seq<int>, p: int)
    requires
        is_load_order(mods, a),
        fifo_order(mods, a),
        is_load_order(mods, b),
        fifo_order(mods, b),
        a.len() == b.len(),
        forall|x: int| a.contains(x) <==> b.contains(x),
        0 <= p <= a.len(),
    ensures
        forall|j: int| 0 <= j < p ==> a[j] == b[j],
    decreases p,
{
    if p > 0 {
        let k = p - 1;
        lemma_orders_agree(mods, a, b, k);
        let x = a[k];
        let y = b[k];
        if x != y {
            assert(a.contains(x));
            let q = choose|q: int| 0 <= q < b.len() && b[q] == x;
            assert(b.contains(y));
            let q2 = choose|q2: int| 0 <= q2 < a.len() && a[q2] == y;
            assert(q > k) by {
                if q < k {
                    assert(a[q] == b[q]);
                }
            }
            assert(q2 > k) by {
                if q2 < k {
                    assert(a[q2] == b[q2]);
                }
            }
            // x becomes ready at the same position in both orders
            assert forall|j: int| k <= j < q implies !must_follow(mods, #[trigger] b[j], x) by {
                if must_follow(mods, b[j], x) {
                    let i = choose|i: int| 0 <= i < k && a[i] == b[j];
                    assert(b[i] == a[i]);
                }
            }
            lemma_last_pred_skip(mods, b, x, k, q);
            lemma_last_pred_same_prefix(mods, a, b, x, k);
            assert forall|j: int| k <= j < q2 implies !must_follow(mods, #[trigger] a[j], y) by {
                if must_follow(mods, a[j], y) {
                    let i = choose|i: int| 0 <= i < k && b[i] == a[j];
                    assert(b[i] == a[i]);
                }
            }
            lemma_last_pred_skip(mods, a, y, k, q2);
            lemma_last_pred_same_prefix(mods, a, b, y, k);
            assert(release(mods, a, k) == release(mods, b, q));
            assert(release(mods, b, k) == release(mods, a, q2));
            assert(release(mods, a, k) < release(mods, a, q2) || (release(mods, a, k) == release(
                mods,
                a,
                q2,
            ) && a[k] < a[q2]));
            assert(release(mods, b, k) < release(mods, b, q) || (release(mods, b, k) == release(
                mods,
                b,
                q,
            ) && b[k] < b[q]));
        }
    }
}

proof fn lemma_resolve_below_finds(mods: Seq<PendingMod>, dep: Seq<char>, n: int, u: int)
    requires
        0 <= u < n,
        key_matches(mods[u], dep),
    ensures
        resolve_below(mods, dep, n) matches Some(w) && u <= w < n,
    decreases n,
{
    if !key_matches(mods[n - 1], dep) {
        lemma_resolve_below_finds(mods, dep, n - 1, u);
    }
}

/// A dependency names a loaded mod by its file name or its display name: when the
/// dependency `k` of mod `v` equals the normalised file name of mod `u`, or its
/// normalised display name when that is not empty, it refers to a loaded mod (`u`,
/// or a later mod of the same name), and unless that mod is `v` itself, `v` must
/// follow it.
pub proof fn law_dependency_by_name(mods: Seq<PendingMod>, v: int, k: int, u: int)
    requires
        0 <= u < mods.len(),
        0 <= v < mods.len(),
        0 <= k < mods[v].dependencies@.len(),
        mods[v].dependencies@[k]@ == spec_normalize_name(mods[u].file_name@) || (spec_normalize_name(
            mods[u].display_name@,
        ).len() > 0 && mods[v].dependencies@[k]@ == spec_normalize_name(mods[u].display_name@)),
    ensures
        resolve(mods, mods[v].dependencies@[k]@) matches Some(w) && u <= w < mods.len() && (w != v
            ==> must_follow(mods, w, v)),
{
    let dep = mods[v].dependencies@[k]@;
    assert(key_matches(mods[u], dep));
    lemma_resolve_below_finds(mods, dep, mods.len() as int, u);
    let w = resolve(mods, dep)->0;
    assert(dep_refers(mods, v, k, w));
}

/// In any load order, and so in the order `sort_mods` returns, a mod comes after
/// the mod that a dependency naming another mod's file name or display name refers
/// to (unless that is the mod itself).
pub proof fn law_dependency_by_name_loads_first(
    mods: Seq<PendingMod>,
    order: Seq<int>,
    i: int,
    k: int,
    u: int,
)
    requires
        is_load_order(mods, order),
        0 <= i < order.len(),
        0 <= u < mods.len(),
        0 <= k < mods[order[i]].dependencies@.len(),
        mods[order[i]].dependencies@[k]@ == spec_normalize_name(mods[u].file_name@) || (
        spec_normalize_name(mods[u].display_name@).len() > 0 && mods[order[i]].dependencies@[k]@
            == spec_normalize_name(mods[u].display_name@)),
    ensures
        resolve(mods, mods[order[i]].dependencies@[k]@) matches Some(w) && (w != order[i]
            ==> exists|j: int| 0 <= j < i && order[j] == w),
{
    let v = order[i];
    assert(0 <= v < mods.len());
    law_dependency_by_name(mods, v, k, u);
    let w = resolve(mods, mods[v].dependencies@[k]@)->0;
    if w != v {
        assert(must_follow(mods, w, order[i]));
    }
}

/// Entry `k` of `keys` and `file_keys` holds the key and the file-name key of mod `k`.
pub open spec fn key_entry_ok(mods: Seq<PendingMod>, keys: Seq<String>, file_keys: Seq<String>, k: int) -> bool {
    &&& keys[k]@ == spec_mod_key(mods[k].file_name@, mods[k].display_name@)
    &&& file_keys[k]@ == spec_normalize_name(mods[k].file_name@)
}

/// The index of the mod that `dep` refers to, as `resolve` says.
fn resolve_dep(keys: &Vec<String>, file_keys: &Vec<String>, dep: &String, Ghost(mods): Ghost<
    Seq<PendingMod>,
>) -> (r: Option<usize>)
    requires
        keys@.len() == mods.len(),
        file_keys@.len() == mods.len(),
        forall|i: int| 0 <= i < mods.len() ==> #[trigger] key_entry_ok(mods, keys@, file_keys@, i),
    ensures
        match r {
            Some(j) => j < mods.len() && resolve(mods, dep@) == Some(j as int),
            None => resolve(mods, dep@) is None,
        },
{
    let mut j = keys.len();
    while j > 0
        invariant
            j <= keys@.len(),
            keys@.len() == mods.len(),
            file_keys@.len() == mods.len(),
            forall|i: int| 0 <= i < mods.len() ==> #[trigger] key_entry_ok(mods, keys@, file_keys@, i),
            resolve(mods, dep@) == resolve_below(mods, dep@, j as int),
        decreases j,
    {
        j = j - 1;
        assert(key_entry_ok(mods, keys@, file_keys@, j as int));
        if keys[j] == *dep || file_keys[j] == *dep {
            return Some(j);
        }
    }
    None
}

/// Whether the pair `(a, b)` occurs in `pairs`.
fn pair_exists(pairs: &Vec<(usize, usize)>, a: usize, b: usize) -> (r: bool)
    ensures
        r == exists|e: int| 0 <= e < pairs@.len() && pairs@[e] == (a, b),
{
    let mut e: usize = 0;
    while e < pairs.len()
        invariant
            e <= pairs@.len(),
            forall|f: int| 0 <= f < e ==> pairs@[f] != (a, b),
        decreases pairs.len() - e,
    {
        if pairs[e].0 == a && pairs[e].1 == b {
            return true;
        }
        e = e + 1;
    }
    false
}

/// Whether every mod that `v` must follow has been taken already (state 2).
fn predecessors_done(pairs: &Vec<(usize, usize)>, state: &Vec<u8>, v: usize) -> (r: bool)
    requires
        forall|e: int| 0 <= e < pairs@.len() ==> (#[trigger] pairs@[e]).0 < state@.len(),
    ensures
        r == forall|e: int| 0 <= e < pairs@.len() && (#[trigger] pairs@[e]).1 == v ==> state@[pairs@[e].0 as int] == 2,
{
    let mut e: usize = 0;
    while e < pairs.len()
        invariant
            e <= pairs@.len(),
            forall|e: int| 0 <= e < pairs@.len() ==> (#[trigger] pairs@[e]).0 < state@.len(),
            forall|f: int| 0 <= f < e && (#[trigger] pairs@[f]).1 == v ==> state@[pairs@[f].0 as int] == 2,
        decreases pairs.len() - e,
    {
        if pairs[e].1 == v && state[pairs[e].0] != 2 {
            return false;
        }
        e = e + 1;
    }
    true
}

/// Whether some pair ends in `v`.
fn has_predecessor(pairs: &Vec<(usize, usize)>, v: usize) -> (r: bool)
    ensures
        r == exists|e: int| 0 <= e < pairs@.len() && (#[trigger] pairs@[e]).1 == v,
{
    let mut e: usize = 0;
    while e < pairs.len()
        invariant
            e <= pairs@.len(),
            forall|f: int| 0 <= f < e ==> (#[trigger] pairs@[f]).1 != v,
        decreases pairs.len() - e,
    {
        if pairs[e].1 == v {
            return true;
        }
        e = e + 1;
    }
    false
}

proof fn lemma_distinct_bounded(q: Seq<usize>, n: nat)
    requires
        forall|i: int, j: int| 0 <= i < j < q.len() ==> q[i] != q[j],
        forall|i: int| 0 <= i < q.len() ==> q[i] < n,
    ensures
        q.len() <= n,
{
    let qi = q.map_values(|x: usize| x as int);
    assert(qi.no_duplicates()) by {
        assert forall|i: int, j: int| 0 <= i < qi.len() && 0 <= j < qi.len() && i != j implies qi[i] != qi[j] by {
            if i < j {
                assert(q[i] != q[j]);
            } else {
                assert(q[j] != q[i]);
            }
        }
    }
    qi.unique_seq_to_set();
    vstd::set_lib::lemma_int_range(0, n as int);
    assert(qi.to_set().subset_of(vstd::set_lib::set_int_range(0, n as int))) by {
        assert forall|x: int| qi.to_set().contains(x) implies vstd::set_lib::set_int_range(0, n as int).contains(x) by {
            let i = choose|i: int| 0 <= i < qi.len() && qi[i] == x;
            assert(q[i] < n);
        }
    }
    vstd::set_lib::lemma_len_subset(qi.to_set(), vstd::set_lib::set_int_range(0, n as int));
}

/// Orders the mods so that each comes after the mods it depends on; mods whose
/// dependencies form or reach a cycle are left out. Dependencies that name no loaded
/// mod, and a mod's dependency on itself, are ignored. Ties are broken first-in,
/// first-out in the order of the input.
pub fn sort_mods(mods: Vec<PendingMod>) -> (r: Vec<PendingMod>)
    ensures
        exists|order: Seq<int>|
            #[trigger] is_load_order(mods@, order) && fifo_order(mods@, order) && r@.len()
                == order.len() && (forall|i: int| 0 <= i < order.len() ==> r@[i] == mods@[order[i]]),
{
    let n = mods.len();
    let ghost ms = mods@;
    let mut keys: Vec<String> = Vec::new();
    let mut file_keys: Vec<String> = Vec::new();
    let mut i: usize = 0;
    while i < n
        invariant
            n == ms.len(),
            ms == mods@,
            i <= n,
            keys@.len() == i,
            file_keys@.len() == i,
            forall|k: int| 0 <= k < i ==> #[trigger] key_entry_ok(ms, keys@, file_keys@, k),
        decreases n - i,
    {
        let key = mod_key(mods[i].file_name.as_str(), mods[i].display_name.as_str());
        let file_key = normalize_name(mods[i].file_name.as_str());
        let ghost old_keys = keys@;
        let ghost old_file_keys = file_keys@;
        keys.push(key);
        file_keys.push(file_key);
        proof {
            assert forall|k: int| 0 <= k < i + 1 implies #[trigger] key_entry_ok(ms, keys@, file_keys@, k) by {
                if k < i {
                    assert(keys@[k] == old_keys[k]);
                    assert(file_keys@[k] == old_file_keys[k]);
                    assert(key_entry_ok(ms, old_keys, old_file_keys, k));
                } else {
                    assert(keys@[k] == key);
                    assert(file_keys@[k] == file_key);
                }
            }
        }
        i = i + 1;
    }

    proof {
        assert forall|k: int| 0 <= k < n implies #[trigger] key_entry_ok(ms, keys@, file_keys@, k) by {
            assert(k < i);
        }
    }
    // The dependency graph as distinct pairs (u, v): v must follow u.
    let mut pairs: Vec<(usize, usize)> = Vec::new();
    let mut index: usize = 0;
    while index < n
        invariant
            n == ms.len(),
            ms == mods@,
            index <= n,
            keys@.len() == n,
            file_keys@.len() == n,
            forall|k: int| 0 <= k < n ==> #[trigger] key_entry_ok(ms, keys@, file_keys@, k),
            forall|e: int| 0 <= e < pairs@.len() ==> (#[trigger] pairs@[e]).0 < n && pairs@[e].1 < index,
            forall|e: int, f: int| 0 <= e < f < pairs@.len() ==> pairs@[e] != pairs@[f],
            forall|e: int, f: int| 0 <= e < f < pairs@.len() ==> pairs@[e].1 <= pairs@[f].1,
            forall|u: int, v: int|
                0 <= u < n && 0 <= v < index ==> (#[trigger] must_follow(ms, u, v) <==> has_pair(pairs@, u, v)),
        decreases n - index,
    {
        let ndeps = mods[index].dependencies.len();
        let mut k: usize = 0;
        while k < ndeps
            invariant
                n == ms.len(),
                ms == mods@,
                index < n,
                ndeps == ms[index as int].dependencies@.len(),
                k <= ndeps,
                keys@.len() == n,
                file_keys@.len() == n,
                forall|kk: int| 0 <= kk < n ==> #[trigger] key_entry_ok(ms, keys@, file_keys@, kk),
                forall|e: int| 0 <= e < pairs@.len() ==> (#[trigger] pairs@[e]).0 < n && pairs@[e].1 <= index,
                forall|e: int, f: int| 0 <= e < f < pairs@.len() ==> pairs@[e] != pairs@[f],
                forall|e: int, f: int| 0 <= e < f < pairs@.len() ==> pairs@[e].1 <= pairs@[f].1,
                forall|u: int, v: int|
                    0 <= u < n && 0 <= v < index ==> (#[trigger] must_follow(ms, u, v) <==> has_pair(pairs@, u, v)),
                forall|u: int|
                    0 <= u < n ==> ((u != index && refers_before(ms, index as int, k as int, u)) <==> #[trigger] has_pair(pairs@, u, index as int)),
            decreases ndeps - k,
        {
            let found = resolve_dep(&keys, &file_keys, &mods[index].dependencies[k], Ghost(ms));
            proof {
                assert(ms[index as int].dependencies@[k as int] == mods@[index as int].dependencies@[k as int]);
            }
            match found {
                Some(dep_index) => {
                    if dep_index != index && !pair_exists(&pairs, dep_index, index) {
                        let ghost old_pairs = pairs@;
                        pairs.push((dep_index, index));
                        proof {
                            assert(dep_refers(ms, index as int, k as int, dep_index as int));
                            assert forall|u: int, v: int|
                                0 <= u < n && 0 <= v < index implies (#[trigger] must_follow(ms, u, v) <==> has_pair(pairs@, u, v)) by {
                                if must_follow(ms, u, v) {
                                    let e = choose|e: int| 0 <= e < old_pairs.len() && old_pairs[e] == (u as usize, v as usize);
                                    assert(pairs@[e] == old_pairs[e]);
                                }
                                if has_pair(pairs@, u, v) {
                                    let e = choose|e: int| 0 <= e < pairs@.len() && pairs@[e] == (u as usize, v as usize);
                                    if e < old_pairs.len() {
                                        assert(old_pairs[e] == pairs@[e]);
                                    }
                                }
                            }
                            assert forall|u: int|
                                0 <= u < n implies ((u != index && refers_before(ms, index as int, k + 1, u)) <==> #[trigger] has_pair(pairs@, u, index as int)) by {
                                if u != index && refers_before(ms, index as int, k + 1, u) {
                                    let kk = choose|kk: int| 0 <= kk < k + 1 && #[trigger] dep_refers(ms, index as int, kk, u);
                                    if kk < k {
                                        assert(refers_before(ms, index as int, k as int, u));
                                        assert(has_pair(old_pairs, u, index as int));
                                        let e = choose|e: int| 0 <= e < old_pairs.len() && old_pairs[e] == (u as usize, (index as int) as usize);
                                        assert(pairs@[e] == old_pairs[e]);
                                        assert(has_pair(pairs@, u, index as int));
                                    } else {
                                        assert(u == dep_index);
                                        assert(pairs@[old_pairs.len() as int] == (u as usize, index));
                                        assert(has_pair(pairs@, u, index as int));
                                    }
                                }
                                if has_pair(pairs@, u, index as int) {
                                    let e = choose|e: int| 0 <= e < pairs@.len() && pairs@[e] == (u as usize, (index as int) as usize);
                                    if e < old_pairs.len() {
                                        assert(old_pairs[e] == pairs@[e]);
                                        assert(has_pair(old_pairs, u, index as int));
                                        let kk = choose|kk: int| 0 <= kk < k && #[trigger] dep_refers(ms, index as int, kk, u);
                                        assert(dep_refers(ms, index as int, kk, u));
                                    } else {
                                        assert(u == dep_index);
                                        assert(dep_refers(ms, index as int, k as int, u));
                                    }
                                }
                            }
                        }
                    } else {
                        proof {
                            assert forall|u: int|
                                0 <= u < n implies ((u != index && refers_before(ms, index as int, k + 1, u)) <==> #[trigger] has_pair(pairs@, u, index as int)) by {
                                if u != index && refers_before(ms, index as int, k + 1, u) {
                                    let kk = choose|kk: int| 0 <= kk < k + 1 && #[trigger] dep_refers(ms, index as int, kk, u);
                                    if kk == k {
                                        assert(u == dep_index);
                                        assert(has_pair(pairs@, dep_index as int, index as int));
                                    } else {
                                        assert(refers_before(ms, index as int, k as int, u));
                                    }
                                }
                                if has_pair(pairs@, u, index as int) {
                                    let kk = choose|kk: int| 0 <= kk < k && #[trigger] dep_refers(ms, index as int, kk, u);
                                    assert(dep_refers(ms, index as int, kk, u));
                                }
                            }
                        }
                    }
                },
                None => {
                    proof {
                        assert forall|u: int|
                            0 <= u < n implies ((u != index && refers_before(ms, index as int, k + 1, u)) <==> #[trigger] has_pair(pairs@, u, index as int)) by {
                            if u != index && refers_before(ms, index as int, k + 1, u) {
                                let kk = choose|kk: int| 0 <= kk < k + 1 && #[trigger] dep_refers(ms, index as int, kk, u);
                                assert(kk != k);
                            }
                        }
                    }
                },
            }
            k = k + 1;
        }
        proof {
            assert forall|u: int, v: int|
                0 <= u < n && 0 <= v < index + 1 implies (#[trigger] must_follow(ms, u, v) <==> has_pair(pairs@, u, v)) by {
                if v == index {
                    if must_follow(ms, u, v) {
                        let kk = choose|kk: int| 0 <= kk < ms[v].dependencies@.len() && #[trigger] dep_refers(ms, v, kk, u);
                        assert(dep_refers(ms, index as int, kk, u));
                    }
                    if has_pair(pairs@, u, v) {
                        let e = choose|e: int| 0 <= e < pairs@.len() && pairs@[e] == (u as usize, v as usize);
                        assert(pairs@[e] == (u as usize, index));
                        let kk = choose|kk: int| 0 <= kk < k && #[trigger] dep_refers(ms, index as int, kk, u);
                        assert(dep_refers(ms, v, kk, u));
                    }
                }
            }
        }
        index = index + 1;
    }

    // First-in, first-out topological order. State 0: waiting, 1: queued, 2: taken.
    let mut state: Vec<u8> = Vec::new();
    let mut queue: Vec<usize> = Vec::new();
    let ghost mut gq: Seq<int> = Seq::empty();
    let mut v: usize = 0;
    while v < n
        invariant
            n == ms.len(),
            gq.len() == queue@.len(),
            forall|i: int| 0 <= i < gq.len() ==> #[trigger] gq[i] == queue@[i] as int,
            forall|u: int, w: int|
                0 <= u < n && 0 <= w < n ==> (#[trigger] must_follow(ms, u, w) <==> has_pair(pairs@, u, w)),
            fifo_order(ms, gq),
            forall|i: int| 0 <= i < gq.len() ==> #[trigger] release(ms, gq, i) == -1,
            forall|e: int, f: int| 0 <= e < f < pairs@.len() ==> pairs@[e].1 <= pairs@[f].1,
            v <= n,
            state@.len() == v,
            forall|w: int| 0 <= w < v ==> (#[trigger] state@[w] == 1) == queue@.contains(w as usize),
            forall|w: int| 0 <= w < v ==> (#[trigger] state@[w] == 0 || state@[w] == 1),
            forall|w: int| 0 <= w < v && #[trigger] state@[w] == 0 ==> exists|e: int|
                0 <= e < pairs@.len() && (#[trigger] pairs@[e]).1 == w as usize,
            forall|w: int| 0 <= w < v && #[trigger] state@[w] == 1 ==> !exists|e: int|
                0 <= e < pairs@.len() && (#[trigger] pairs@[e]).1 == w as usize,
            forall|i: int| 0 <= i < queue@.len() ==> #[trigger] queue@[i] < v,
            forall|i: int, j: int| 0 <= i < j < queue@.len() ==> queue@[i] != queue@[j],
        decreases n - v,
    {
        let ghost q0 = queue@;
        let ghost s0 = state@;
        if has_predecessor(&pairs, v) {
            state.push(0);
        } else {
            state.push(1);
            queue.push(v);
            proof {
                let g0 = gq;
                gq = gq.push(v as int);
                let len = g0.len() as int;
                assert forall|j: int| 0 <= j < len implies !must_follow(ms, #[trigger] gq[j], v as int) by {
                    if must_follow(ms, gq[j], v as int) {
                        assert(has_pair(pairs@, gq[j], v as int));
                        let e = choose|e: int| 0 <= e < pairs@.len() && pairs@[e] == (gq[j] as usize, v);
                        assert(pairs@[e].1 == v);
                    }
                }
                lemma_last_pred_skip(ms, gq, v as int, 0, len);
                assert forall|i: int| 0 <= i < len implies release(ms, gq, i) == release(ms, g0, i) by {
                    lemma_last_pred_prefix(ms, g0, v as int, g0[i], i);
                }
                assert forall|i: int, j: int|
                    0 <= i < j < gq.len() implies #[trigger] release(ms, gq, i) < #[trigger] release(
                    ms,
                    gq,
                    j,
                ) || (release(ms, gq, i) == release(ms, gq, j) && gq[i] < gq[j]) by {
                    if j < len {
                        assert(release(ms, g0, i) < release(ms, g0, j) || (release(ms, g0, i)
                            == release(ms, g0, j) && g0[i] < g0[j]));
                    } else {
                        assert(gq[i] == q0[i] as int);
                        assert(q0[i] < v);
                    }
                }
            }
        }
        proof {
            assert forall|w: int| 0 <= w < v + 1 implies (#[trigger] state@[w] == 1) == queue@.contains(w as usize) by {
                if w < v {
                    assert(state@[w] == s0[w]);
                    if queue@.contains(w as usize) {
                        let i = choose|i: int| 0 <= i < queue@.len() && queue@[i] == w as usize;
                        assert(i < q0.len());
                        assert(q0[i] == w as usize);
                    }
                    if q0.contains(w as usize) {
                        let i = choose|i: int| 0 <= i < q0.len() && q0[i] == w as usize;
                        assert(queue@[i] == w as usize);
                    }
                } else {
                    if state@[w] == 0 && queue@.contains(w as usize) {
                        let i = choose|i: int| 0 <= i < queue@.len() && queue@[i] == w as usize;
                        assert(i < q0.len());
                    }
                    if state@[w] == 1 {
                        assert(queue@[q0.len() as int] == v);
                    }
                }
            }
        }
        v = v + 1;
    }
    let mut head: usize = 0;
    proof {
        assert forall|w: int| 0 <= w < n && #[trigger] state@[w] == 0 implies exists|u: int|
            must_follow(ms, u, w) && state@[u] != 2 by {
            let e = choose|e: int| 0 <= e < pairs@.len() && (#[trigger] pairs@[e]).1 == w as usize;
            let u = pairs@[e].0 as int;
            assert(has_pair(pairs@, u, w));
            assert(must_follow(ms, u, w));
        }
        assert(queue@.take(0) =~= Seq::<usize>::empty());
        assert forall|p: int, u: int| 0 <= p < queue@.len() && #[trigger] must_follow(ms, u, queue@[p] as int) implies exists|j: int| 0 <= j < p && queue@[j] == u as usize by {
            let e = choose|e: int| 0 <= e < pairs@.len() && pairs@[e] == (u as usize, queue@[p]);
            assert(queue@.contains(queue@[p]));
            assert(state@[queue@[p] as int] == 1);
        }
    }
    while head < queue.len()
        invariant
            n == ms.len(),
            ms == mods@,
            state@.len() == n,
            head <= queue@.len(),
            gq.len() == queue@.len(),
            forall|i: int| 0 <= i < gq.len() ==> #[trigger] gq[i] == queue@[i] as int,
            fifo_order(ms, gq),
            forall|i: int| 0 <= i < gq.len() ==> #[trigger] release(ms, gq, i) < head,
            forall|e: int, f: int| 0 <= e < f < pairs@.len() ==> pairs@[e].1 <= pairs@[f].1,
            forall|e: int| 0 <= e < pairs@.len() ==> (#[trigger] pairs@[e]).0 < n && pairs@[e].1 < n,
            forall|e: int, f: int| 0 <= e < f < pairs@.len() ==> pairs@[e] != pairs@[f],
            forall|u: int, w: int|
                0 <= u < n && 0 <= w < n ==> (#[trigger] must_follow(ms, u, w) <==> has_pair(pairs@, u, w)),
            forall|i: int| 0 <= i < queue@.len() ==> #[trigger] queue@[i] < n,
            forall|i: int, j: int| 0 <= i < j < queue@.len() ==> queue@[i] != queue@[j],
            forall|w: int| 0 <= w < n ==> (#[trigger] state@[w] == 0) == !queue@.contains(w as usize),
            forall|w: int| 0 <= w < n ==> (#[trigger] state@[w] == 2) == queue@.take(head as int).contains(w as usize),
            forall|p: int, u: int|
                0 <= p < queue@.len() && #[trigger] must_follow(ms, u, queue@[p] as int) ==> exists|j: int|
                    0 <= j < p && queue@[j] == u as usize,
            forall|w: int|
                0 <= w < n && #[trigger] state@[w] == 0 ==> exists|u: int|
                    must_follow(ms, u, w) && state@[u] != 2,
        decreases n - head,
    {
        proof {
            lemma_distinct_bounded(queue@, n as nat);
        }
        let u = queue[head];
        let ghost old_state = state@;
        let ghost old_head = head as int;
        proof {
            assert(queue@.contains(u));
            assert(!queue@.take(head as int).contains(u)) by {
                if queue@.take(head as int).contains(u) {
                    let j = choose|j: int| 0 <= j < head && queue@.take(head as int)[j] == u;
                    assert(queue@[j] == queue@[head as int]);
                }
            }
        }
        state.set(u, 2);
        head = head + 1;
        proof {
            assert(queue@.take(head as int) == queue@.take(old_head).push(u));
            assert forall|w: int| 0 <= w < n implies (#[trigger] state@[w] == 2) == queue@.take(head as int).contains(w as usize) by {
                if w != u as int {
                    assert(state@[w] == old_state[w]);
                    if queue@.take(head as int).contains(w as usize) {
                        let j = choose|j: int| 0 <= j < head && queue@.take(head as int)[j] == w as usize;
                        assert(j < old_head);
                        assert(queue@.take(old_head)[j] == w as usize);
                    }
                    if queue@.take(old_head).contains(w as usize) {
                        let j = choose|j: int| 0 <= j < old_head && queue@.take(old_head)[j] == w as usize;
                        assert(queue@.take(head as int)[j] == w as usize);
                    }
                } else {
                    assert(queue@.take(head as int)[old_head] == u);
                }
            }
            assert forall|w: int| 0 <= w < n implies (#[trigger] state@[w] == 0) == !queue@.contains(w as usize) by {
                if w == u as int {
                } else {
                    assert(state@[w] == old_state[w]);
                }
            }
            assert(gq[old_head] == u as int);
            assert forall|i: int|
                0 <= i < gq.len() && #[trigger] release(ms, gq, i) == head - 1 implies exists|f: int|
                    0 <= f < 0 && pairs@[f] == (u, queue@[i]) by {
                assert(release(ms, gq, i) < old_head);
            }
        }
        let mut e: usize = 0;
        while e < pairs.len()
            invariant
                n == ms.len(),
                ms == mods@,
                state@.len() == n,
                u < n,
                0 < head <= queue@.len(),
                state@[u as int] == 2,
                gq.len() == queue@.len(),
                forall|i: int| 0 <= i < gq.len() ==> #[trigger] gq[i] == queue@[i] as int,
                gq[head - 1] == u as int,
                fifo_order(ms, gq),
                forall|i: int| 0 <= i < gq.len() ==> #[trigger] release(ms, gq, i) < head,
                forall|i: int|
                    0 <= i < gq.len() && #[trigger] release(ms, gq, i) == head - 1 ==> exists|f: int|
                        0 <= f < e && pairs@[f] == (u, queue@[i]),
                forall|e: int, f: int| 0 <= e < f < pairs@.len() ==> pairs@[e].1 <= pairs@[f].1,
                forall|e: int| 0 <= e < pairs@.len() ==> (#[trigger] pairs@[e]).0 < n && pairs@[e].1 < n,
                forall|e: int, f: int| 0 <= e < f < pairs@.len() ==> pairs@[e] != pairs@[f],
                forall|x: int, w: int|
                    0 <= x < n && 0 <= w < n ==> (#[trigger] must_follow(ms, x, w) <==> has_pair(pairs@, x, w)),
                forall|i: int| 0 <= i < queue@.len() ==> #[trigger] queue@[i] < n,
                forall|i: int, j: int| 0 <= i < j < queue@.len() ==> queue@[i] != queue@[j],
                forall|w: int| 0 <= w < n ==> (#[trigger] state@[w] == 0) == !queue@.contains(w as usize),
                forall|w: int| 0 <= w < n ==> (#[trigger] state@[w] == 2) == queue@.take(head as int).contains(w as usize),
                forall|p: int, x: int|
                    0 <= p < queue@.len() && #[trigger] must_follow(ms, x, queue@[p] as int) ==> exists|j: int|
                        0 <= j < p && queue@[j] == x as usize,
                forall|w: int|
                    0 <= w < n && #[trigger] state@[w] == 0 ==> (exists|x: int|
                        must_follow(ms, x, w) && state@[x] != 2) || (exists|f: int|
                        e <= f < pairs@.len() && pairs@[f] == (u, w as usize)),
            decreases pairs.len() - e,
        {
            if pairs[e].0 == u {
                let next = pairs[e].1;
                if state[next] == 0 && predecessors_done(&pairs, &state, next) {
                    let ghost q0 = queue@;
                    let ghost s0 = state@;
                    proof {
                        lemma_distinct_bounded(queue@, n as nat);
                        assert(!queue@.contains(next));
                    }
                    queue.push(next);
                    state.set(next, 1);
                    proof {
                        let g0 = gq;
                        gq = gq.push(next as int);
                        let len = g0.len() as int;
                        let h = head - 1;
                        assert(pairs@[e as int] == (u, next));
                        assert(must_follow(ms, gq[h], next as int)) by {
                            assert(has_pair(pairs@, u as int, next as int));
                        }
                        assert forall|j: int| head <= j < len implies !must_follow(ms, #[trigger] gq[j], next as int) by {
                            if must_follow(ms, gq[j], next as int) {
                                assert(has_pair(pairs@, gq[j], next as int));
                                let f = choose|f: int| 0 <= f < pairs@.len() && pairs@[f] == (gq[j] as usize, next);
                                assert(pairs@[f].1 == next);
                                assert(s0[pairs@[f].0 as int] == 2);
                                assert(q0.take(head as int).contains(q0[j]));
                                let jj = choose|jj: int| 0 <= jj < head && q0.take(head as int)[jj] == q0[j];
                                assert(q0[jj] == q0[j]);
                            }
                        }
                        lemma_last_pred_skip(ms, gq, next as int, head as int, len);
                        assert(gq[len] == next as int);
                        assert(release(ms, gq, len) == h);
                        assert forall|i: int| 0 <= i < len implies #[trigger] release(ms, gq, i) == release(ms, g0, i) by {
                            lemma_last_pred_prefix(ms, g0, next as int, g0[i], i);
                        }
                        assert forall|i: int, j: int|
                            0 <= i < j < gq.len() implies #[trigger] release(ms, gq, i) < #[trigger] release(
                            ms,
                            gq,
                            j,
                        ) || (release(ms, gq, i) == release(ms, gq, j) && gq[i] < gq[j]) by {
                            assert(release(ms, gq, i) == release(ms, g0, i));
                            if j < len {
                                assert(release(ms, gq, j) == release(ms, g0, j));
                                assert(release(ms, g0, i) < release(ms, g0, j) || (release(ms, g0, i)
                                    == release(ms, g0, j) && g0[i] < g0[j]));
                            } else {
                                assert(release(ms, g0, i) < head);
                                if release(ms, g0, i) == h {
                                    let f = choose|f: int| 0 <= f < e && pairs@[f] == (u, q0[i]);
                                    assert(pairs@[f].1 <= pairs@[e as int].1);
                                    assert(q0.contains(q0[i]));
                                    assert(q0[i] != next);
                                }
                            }
                        }
                        assert forall|i: int| 0 <= i < gq.len() implies #[trigger] release(ms, gq, i) < head by {
                            if i < len {
                                assert(release(ms, gq, i) == release(ms, g0, i));
                            }
                        }
                        assert forall|i: int|
                            0 <= i < gq.len() && #[trigger] release(ms, gq, i) == head - 1 implies exists|f: int|
                                0 <= f < e + 1 && pairs@[f] == (u, queue@[i]) by {
                            if i < len {
                                assert(release(ms, gq, i) == release(ms, g0, i));
                                let f = choose|f: int| 0 <= f < e && pairs@[f] == (u, q0[i]);
                                assert(queue@[i] == q0[i]);
                            } else {
                                assert(queue@[i] == next);
                            }
                        }
                        assert(queue@.take(head as int) == q0.take(head as int));
                        assert forall|w: int| 0 <= w < n implies (#[trigger] state@[w] == 0) == !queue@.contains(w as usize) by {
                            if w != next as int {
                                assert(state@[w] == s0[w]);
                                if queue@.contains(w as usize) {
                                    let j = choose|j: int| 0 <= j < queue@.len() && queue@[j] == w as usize;
                                    assert(j < q0.len());
                                    assert(q0[j] == w as usize);
                                }
                                if q0.contains(w as usize) {
                                    let j = choose|j: int| 0 <= j < q0.len() && q0[j] == w as usize;
                                    assert(queue@[j] == w as usize);
                                }
                            } else {
                                assert(queue@[q0.len() as int] == next);
                            }
                        }
                        assert forall|w: int| 0 <= w < n implies (#[trigger] state@[w] == 2) == queue@.take(head as int).contains(w as usize) by {
                            if w != next as int {
                                assert(state@[w] == s0[w]);
                            } else {
                                if q0.take(head as int).contains(next) {
                                    let j = choose|j: int| 0 <= j < head && q0.take(head as int)[j] == next;
                                    assert(q0.contains(next));
                                }
                            }
                        }
                        assert forall|i: int, j: int| 0 <= i < j < queue@.len() implies queue@[i] != queue@[j] by {
                            if j == q0.len() {
                                assert(q0.contains(q0[i]));
                            }
                        }
                        assert forall|p: int, x: int|
                            0 <= p < queue@.len() && #[trigger] must_follow(ms, x, queue@[p] as int) implies exists|j: int|
                                0 <= j < p && queue@[j] == x as usize by {
                            if p < q0.len() {
                                assert(queue@[p] == q0[p]);
                                let j = choose|j: int| 0 <= j < p && q0[j] == x as usize;
                                assert(queue@[j] == x as usize);
                            } else {
                                let f = choose|f: int| 0 <= f < pairs@.len() && pairs@[f] == (x as usize, next);
                                assert(s0[x] == 2);
                                assert(q0.take(head as int).contains(x as usize));
                                let j = choose|j: int| 0 <= j < head && q0.take(head as int)[j] == x as usize;
                                assert(queue@[j] == x as usize);
                            }
                        }
                        assert forall|w: int|
                            0 <= w < n && #[trigger] state@[w] == 0 implies (exists|x: int|
                                must_follow(ms, x, w) && state@[x] != 2) || (exists|f: int|
                                e + 1 <= f < pairs@.len() && pairs@[f] == (u, w as usize)) by {
                            assert(w != next as int);
                            assert(s0[w] == 0);
                            if exists|x: int| must_follow(ms, x, w) && s0[x] != 2 {
                                let x = choose|x: int| must_follow(ms, x, w) && s0[x] != 2;
                                if x == next as int {
                                    assert(state@[x] == 1);
                                } else {
                                    assert(state@[x] == s0[x]);
                                }
                            } else {
                                let f = choose|f: int| e <= f < pairs@.len() && pairs@[f] == (u, w as usize);
                                assert(f != e);
                            }
                        }
                    }
                } else {
                    proof {
                        if state@[next as int] == 0 {
                            let f = choose|f: int| 0 <= f < pairs@.len() && (#[trigger] pairs@[f]).1 == next && state@[pairs@[f].0 as int] != 2;
                            assert(must_follow(ms, pairs@[f].0 as int, next as int));
                        }
                        assert forall|w: int|
                            0 <= w < n && #[trigger] state@[w] == 0 implies (exists|x: int|
                                must_follow(ms, x, w) && state@[x] != 2) || (exists|f: int|
                                e + 1 <= f < pairs@.len() && pairs@[f] == (u, w as usize)) by {
                            if w == next as int {
                                let f = choose|f: int| 0 <= f < pairs@.len() && (#[trigger] pairs@[f]).1 == next && state@[pairs@[f].0 as int] != 2;
                                assert(must_follow(ms, pairs@[f].0 as int, w));
                            } else if !(exists|x: int| must_follow(ms, x, w) && state@[x] != 2) {
                                let f = choose|f: int| e <= f < pairs@.len() && pairs@[f] == (u, w as usize);
                                assert(f != e);
                            }
                        }
                    }
                }
            } else {
                proof {
                    assert forall|w: int|
                        0 <= w < n && #[trigger] state@[w] == 0 implies (exists|x: int|
                            must_follow(ms, x, w) && state@[x] != 2) || (exists|f: int|
                            e + 1 <= f < pairs@.len() && pairs@[f] == (u, w as usize)) by {
                        if !(exists|x: int| must_follow(ms, x, w) && state@[x] != 2) {
                            let f = choose|f: int| e <= f < pairs@.len() && pairs@[f] == (u, w as usize);
                            assert(f != e);
                        }
                    }
                }
            }
            e = e + 1;
        }
    }

    // Hand the mods out in that order.
    let mut rest = mods;
    let mut slots: Vec<Option<PendingMod>> = Vec::new();
    while slots.len() < n
        invariant
            n == ms.len(),
            slots@.len() <= n,
            rest@ == ms.subrange(slots@.len() as int, n as int),
            forall|k: int| 0 <= k < slots@.len() ==> #[trigger] slots@[k] == Some(ms[k]),
        decreases n - slots@.len(),
    {
        let m = rest.remove(0);
        slots.push(Some(m));
    }
    let mut r: Vec<PendingMod> = Vec::new();
    let mut t: usize = 0;
    while t < queue.len()
        invariant
            n == ms.len(),
            slots@.len() == n,
            t <= queue@.len(),
            forall|i: int| 0 <= i < queue@.len() ==> #[trigger] queue@[i] < n,
            forall|i: int, j: int| 0 <= i < j < queue@.len() ==> queue@[i] != queue@[j],
            forall|k: int|
                0 <= k < n ==> #[trigger] slots@[k] == if queue@.take(t as int).contains(k as usize) {
                    None
                } else {
                    Some(ms[k])
                },
            r@.len() == t,
            forall|i: int| 0 <= i < t ==> #[trigger] r@[i] == ms[queue@[i] as int],
        decreases queue.len() - t,
    {
        let idx = queue[t];
        let ghost old_slots = slots@;
        proof {
            assert(!queue@.take(t as int).contains(idx)) by {
                if queue@.take(t as int).contains(idx) {
                    let j = choose|j: int| 0 <= j < t && queue@.take(t as int)[j] == idx;
                    assert(queue@[j] == queue@[t as int]);
                }
            }
        }
        let mut taken: Option<PendingMod> = None;
        std::mem::swap(&mut slots[idx], &mut taken);
        proof {
            let tk1 = queue@.take(t + 1);
            assert(tk1 == queue@.take(t as int).push(idx));
            assert forall|k: int|
                0 <= k < n implies #[trigger] slots@[k] == if queue@.take(t + 1).contains(k as usize) {
                    None
                } else {
                    Some(ms[k])
                } by {
                if k != idx as int {
                    assert(slots@[k] == old_slots[k]);
                    if queue@.take(t + 1).contains(k as usize) {
                        let j = choose|j: int| 0 <= j < t + 1 && tk1[j] == k as usize;
                        assert(queue@.take(t as int)[j] == k as usize);
                    }
                    if queue@.take(t as int).contains(k as usize) {
                        let j = choose|j: int| 0 <= j < t && queue@.take(t as int)[j] == k as usize;
                        assert(tk1[j] == k as usize);
                    }
                } else {
                    assert(tk1[t as int] == idx);
                }
            }
        }
        match taken {
            Some(m) => {
                r.push(m);
            },
            None => {
                assert(false);
            },
        }
        t = t + 1;
    }
    proof {
        let order = queue@.map_values(|x: usize| x as int);
        assert(queue@.take(head as int) == queue@);
        assert forall|v: int| 0 <= v < n implies order.contains(v) == queue@.contains(v as usize) by {
            if order.contains(v) {
                let i = choose|i: int| 0 <= i < order.len() && order[i] == v;
                assert(queue@[i] == v as usize);
            }
            if queue@.contains(v as usize) {
                let i = choose|i: int| 0 <= i < queue@.len() && queue@[i] == v as usize;
                assert(order[i] == v);
            }
        }
        assert forall|i: int, x: int|
            0 <= i < order.len() && #[trigger] must_follow(ms, x, order[i]) implies exists|j: int|
                0 <= j < i && order[j] == x by {
            assert(must_follow(ms, x, queue@[i] as int));
            let j = choose|j: int| 0 <= j < i && queue@[j] == x as usize;
            assert(order[j] == x);
        }
        assert forall|v: int|
            0 <= v < ms.len() && !order.contains(v) implies exists|x: int|
                #[trigger] must_follow(ms, x, v) && !order.contains(x) by {
            assert(state@[v] == 0);
            let x = choose|x: int| must_follow(ms, x, v) && state@[x] != 2;
            assert(!order.contains(x));
        }
        assert(is_load_order(ms, order));
        assert(order =~= gq);
        assert forall|i: int| 0 <= i < order.len() implies r@[i] == ms[order[i]] by {
            assert(r@[i] == ms[queue@[i] as int]);
        }
    }
    r
}

} // verus!
