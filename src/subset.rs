//! Planning a subset: which glyph ids survive and what they become, and the
//! lockstep filtering of coverage-indexed arrays.
use vstd::prelude::*;

use std::collections::{BTreeSet, HashMap};

verus! {

/// The number of distinct glyph ids.
pub const GLYPH_SPACE: usize = 65536;

/// Every element is smaller than the next.
pub open spec fn strictly_sorted(s: Seq<u16>) -> bool {
    forall|i: int, j: int| 0 <= i < j < s.len() ==> s[i] < s[j]
}

/// The glyph ids to keep.
pub struct Input {
    glyph_ids: Vec<u16>,
}

impl Input {
    /// The retained ids, ascending.
    pub closed spec fn ids(&self) -> Seq<u16> {
        self.glyph_ids@
    }

    pub closed spec fn wf(&self) -> bool {
        &&& strictly_sorted(self.glyph_ids@)
        &&& self.glyph_ids@.len() <= GLYPH_SPACE
    }

    /// The ids to keep: those given, and always id 0 (the `.notdef` glyph).
    pub fn from_gids(glyph_ids: BTreeSet<u16>) -> (r: Input)
        ensures
            r.wf(),
            strictly_sorted(r.ids()),
            forall|g: u16| r.ids().contains(g) <==> (g == 0 || glyph_ids@.contains(g)),
    {
        broadcast use vstd::std_specs::btree::group_btree_axioms;
        broadcast use vstd::laws_cmp::group_laws_cmp;

        let mut kept = glyph_ids;
        kept.insert(0);
        let ghost set = kept@;
        assert(forall|g: u16| set.contains(g) <==> (g == 0 || glyph_ids@.contains(g)));
        let mut ids: Vec<u16> = Vec::new();
        let mut g: usize = 0;
        while g < GLYPH_SPACE
            invariant
                kept@ == set,
                g <= GLYPH_SPACE,
                ids@.len() <= g,
                strictly_sorted(ids@),
                forall|i: int| 0 <= i < ids@.len() ==> ids@[i] < g,
                forall|h: u16| h < g ==> (ids@.contains(h) <==> #[trigger] set.contains(h)),
                forall|h: u16| #[trigger] ids@.contains(h) ==> h < g,
            decreases GLYPH_SPACE - g,
        {
            if kept.contains(&(g as u16)) {
                let ghost prev = ids@;
                ids.push(g as u16);
                proof {
                    assert forall|h: u16| h < g + 1 implies (ids@.contains(h) <==> #[trigger] set.contains(h)) by {
                        if h == g {
                            assert(ids@[prev.len() as int] == h);
                        } else {
                            if ids@.contains(h) {
                                let m = choose|m: int| 0 <= m < ids@.len() && ids@[m] == h;
                                assert(m < prev.len());
                                assert(prev[m] == h);
                            }
                            if prev.contains(h) {
                                let m = choose|m: int| 0 <= m < prev.len() && prev[m] == h;
                                assert(ids@[m] == h);
                            }
                        }
                    }
                    assert forall|h: u16| #[trigger] ids@.contains(h) implies h < g + 1 by {
                        let m = choose|m: int| 0 <= m < ids@.len() && ids@[m] == h;
                        if m < prev.len() {
                            assert(prev[m] == h);
                        }
                    }
                }
            } else {
                proof {
                    assert forall|h: u16| h < g + 1 implies (ids@.contains(h) <==> #[trigger] set.contains(h)) by {
                        if h == g {
                            if ids@.contains(h) {
                                let m = choose|m: int| 0 <= m < ids@.len() && ids@[m] == h;
                            }
                        }
                    }
                }
            }
            g = g + 1;
        }
        proof {
            assert forall|h: u16| ids@.contains(h) <==> (h == 0 || glyph_ids@.contains(h)) by {
                assert(h < g);
                assert(ids@.contains(h) <==> set.contains(h));
            }
        }
        Input { glyph_ids: ids }
    }

    /// Assigns each retained id its position among the retained ids: the
    /// smallest becomes 0, the next 1, and so on.
    pub fn make_plan(&self) -> (plan: Plan)
        requires
            self.wf(),
        ensures
            plan.wf(),
            forall|i: int| 0 <= i < self.ids().len() ==> plan.gid(#[trigger] self.ids()[i]) == Some(i as u16),
            forall|g: u16| !self.ids().contains(g) ==> #[trigger] plan.gid(g) is None,
            plan.lookups() == Seq::<Option<u16>>::empty(),
            plan.features() == Seq::<Option<u16>>::empty(),
    {
        broadcast use vstd::std_specs::hash::group_hash_axioms;

        let mut map: HashMap<u16, u16> = HashMap::new();
        let ids = &self.glyph_ids;
        let mut i: usize = 0;
        while i < ids.len()
            invariant
                strictly_sorted(ids@),
                ids@.len() <= GLYPH_SPACE,
                i <= ids@.len(),
                forall|m: int| 0 <= m < i ==> map@.contains_key(#[trigger] ids@[m]) && map@[ids@[m]] == m as u16,
                forall|g: u16| #[trigger] map@.contains_key(g) ==> ids@.subrange(0, i as int).contains(g),
            decreases ids@.len() - i,
        {
            let g = ids[i];
            map.insert(g, i as u16);
            proof {
                assert forall|m: int| 0 <= m < i + 1 implies map@.contains_key(#[trigger] ids@[m]) && map@[ids@[m]]
                    == m as u16 by {
                    if m < i {
                        assert(ids@[m] < ids@[i as int]);
                    }
                }
                assert forall|h: u16| #[trigger] map@.contains_key(h) implies ids@.subrange(0, i + 1).contains(h) by {
                    assert(ids@.subrange(0, i + 1)[i as int] == g);
                    if h != g {
                        let m = choose|m: int| 0 <= m < i && ids@.subrange(0, i as int)[m] == h;
                        assert(ids@.subrange(0, i + 1)[m] == h);
                    }
                }
            }
            i = i + 1;
        }
        assert(ids@.subrange(0, i as int) =~= ids@);
        Plan { gid_map: map, gpos_lookup_map: Vec::new(), gpos_feature_map: Vec::new() }
    }
}

/// Where each retained id, lookup and feature goes; absence means dropped.
pub struct Plan {
    gid_map: HashMap<u16, u16>,
    /// Old lookup index to new lookup index.
    gpos_lookup_map: Vec<Option<u16>>,
    /// Old feature index to new feature index.
    gpos_feature_map: Vec<Option<u16>>,
}

impl Plan {
    pub closed spec fn wf(&self) -> bool {
        &&& vstd::std_specs::hash::obeys_key_model::<u16>()
        &&& vstd::std_specs::hash::builds_valid_hashers::<std::hash::RandomState>()
    }

    /// What glyph `g` becomes, if it is retained.
    pub closed spec fn gid(&self, g: u16) -> Option<u16> {
        if self.gid_map@.contains_key(g) {
            Some(self.gid_map@[g])
        } else {
            None
        }
    }

    pub closed spec fn lookups(&self) -> Seq<Option<u16>> {
        self.gpos_lookup_map@
    }

    pub closed spec fn features(&self) -> Seq<Option<u16>> {
        self.gpos_feature_map@
    }

    /// The new id of glyph `gid`, or `None` when it is dropped.
    pub fn remap_gid(&self, gid: u16) -> (r: Option<u16>)
        requires
            self.wf(),
        ensures
            r == self.gid(gid),
    {
        broadcast use vstd::std_specs::hash::group_hash_axioms;

        match self.gid_map.get(&gid) {
            Some(v) => Some(*v),
            None => None,
        }
    }

    /// Sets the map from old lookup indices to new ones.
    pub fn set_gpos_lookup_map(&mut self, map: Vec<Option<u16>>)
        ensures
            final(self).lookups() == map@,
            final(self).features() == old(self).features(),
            final(self).wf() == old(self).wf(),
            forall|g: u16| final(self).gid(g) == old(self).gid(g),
    {
        self.gpos_lookup_map = map;
    }

    /// The new index of lookup `idx`, or `None` when it is dropped or
    /// unknown.
    pub fn remap_gpos_lookup(&self, idx: u16) -> (r: Option<u16>)
        ensures
            r == (if (idx as int) < self.lookups().len() {
                self.lookups()[idx as int]
            } else {
                None::<u16>
            }),
    {
        if (idx as usize) < self.gpos_lookup_map.len() {
            self.gpos_lookup_map[idx as usize]
        } else {
            None
        }
    }

    /// Sets the map from old feature indices to new ones.
    pub fn set_gpos_feature_map(&mut self, map: Vec<Option<u16>>)
        ensures
            final(self).features() == map@,
            final(self).lookups() == old(self).lookups(),
            final(self).wf() == old(self).wf(),
            forall|g: u16| final(self).gid(g) == old(self).gid(g),
    {
        self.gpos_feature_map = map;
    }

    /// The new index of feature `idx`, or `None` when it is dropped or
    /// unknown.
    pub fn remap_gpos_feature(&self, idx: u16) -> (r: Option<u16>)
        ensures
            r == (if (idx as int) < self.features().len() {
                self.features()[idx as int]
            } else {
                None::<u16>
            }),
    {
        if (idx as usize) < self.gpos_feature_map.len() {
            self.gpos_feature_map[idx as usize]
        } else {
            None
        }
    }
}

/// Remapping is dense and keeps order: retained ids map to `0 .. n` with
/// smaller ids getting smaller new ids, id 0 maps to 0, and dropped ids map
/// to nothing.
pub proof fn lemma_plan_dense(input: &Input, plan: &Plan)
    requires
        input.wf(),
        input.ids().contains(0),
        forall|i: int| 0 <= i < input.ids().len() ==> plan.gid(#[trigger] input.ids()[i]) == Some(i as u16),
        forall|g: u16| !input.ids().contains(g) ==> #[trigger] plan.gid(g) is None,
    ensures
        plan.gid(0) == Some(0u16),
        forall|a: u16, b: u16|
            input.ids().contains(a) && input.ids().contains(b) && a < b ==> #[trigger] plan.gid(a)->0
                < #[trigger] plan.gid(b)->0,
        forall|g: u16| #[trigger] plan.gid(g) is Some ==> (plan.gid(g)->0 as int) < input.ids().len(),
{
    let ids = input.ids();
    let i0 = choose|i: int| 0 <= i < ids.len() && ids[i] == 0u16;
    if i0 > 0 {
        assert(ids[0] < ids[i0]);
    }
    assert(plan.gid(ids[0]) == Some(0u16));
    assert forall|a: u16, b: u16|
        input.ids().contains(a) && input.ids().contains(b) && a < b implies #[trigger] plan.gid(a)->0
            < #[trigger] plan.gid(b)->0 by {
        let ia = choose|i: int| 0 <= i < ids.len() && ids[i] == a;
        let ib = choose|i: int| 0 <= i < ids.len() && ids[i] == b;
        assert(plan.gid(ids[ia]) == Some(ia as u16));
        assert(plan.gid(ids[ib]) == Some(ib as u16));
        if ib <= ia {
            if ib < ia {
                assert(ids[ib] < ids[ia]);
            }
        }
    }
    assert forall|g: u16| #[trigger] plan.gid(g) is Some implies (plan.gid(g)->0 as int) < input.ids().len() by {
        if !ids.contains(g) {
            assert(plan.gid(g) is None);
        } else {
            let i = choose|i: int| 0 <= i < ids.len() && ids[i] == g;
            assert(plan.gid(ids[i]) == Some(i as u16));
        }
    }
}

/// Why a table could not be subset.
#[derive(Debug)]
pub struct Error {
    pub msg: String,
}

impl Error {
    pub fn new(msg: &str) -> (r: Error)
        ensures
            r.msg@ == msg@,
    {
        Error { msg: msg.to_owned() }
    }
}

/// A node of an owned table tree that can be pruned for a plan.
pub trait Subset: Sized {
    /// Whether the object, as it stands after subsetting, is worth keeping.
    spec fn kept(&self) -> bool;

    /// What subsetting does: how `new`, the object after subsetting with
    /// `plan`, and the result `r` relate to `old`, the object before.
    spec fn subset_post(old: Self, new: Self, plan: Plan, r: Result<bool, Error>) -> bool;

    /// Subsets this object; `Ok(true)` when it should be retained.
    fn subset(&mut self, plan: &Plan) -> (r: Result<bool, Error>)
        requires
            plan.wf(),
        ensures
            r matches Ok(k) ==> k == final(self).kept(),
            Self::subset_post(*old(self), *final(self), *plan, r),
    ;
}

/// The items still worth keeping, in order.
pub open spec fn kept_items<T: Subset>(s: Seq<T>) -> Seq<T>
    decreases s.len(),
{
    if s.len() == 0 {
        Seq::empty()
    } else {
        let prev = kept_items(s.drop_last());
        if s.last().kept() {
            prev.push(s.last())
        } else {
            prev
        }
    }
}

/// Subsets each item in turn and keeps, in order, those still worth
/// keeping. Stops at the first error, which is returned with the items kept
/// so far.
pub fn subset_each<T: Subset>(items: Vec<T>, plan: &Plan) -> (r: (Vec<T>, Option<Error>))
    requires
        plan.wf(),
    ensures
        r.0@.len() <= items@.len(),
        r.1 is None ==> exists|after: Seq<T>|
            {
                &&& after.len() == items@.len()
                &&& forall|i: int|
                    0 <= i < after.len() ==> T::subset_post(
                        items@[i],
                        #[trigger] after[i],
                        *plan,
                        Ok::<bool, Error>(after[i].kept()),
                    )
                &&& r.0@ == #[trigger] kept_items(after)
            },
{
    let ghost n = items@.len();
    let ghost orig = items@;
    let mut all = items;
    let mut rest: Vec<T> = Vec::new();
    while all.len() > 0
        invariant
            n == orig.len(),
            rest@.len() + all@.len() == n,
            all@ == orig.subrange(0, all@.len() as int),
            forall|m: int| 0 <= m < rest@.len() ==> rest@[m] == orig[n - 1 - m],
        decreases all@.len(),
    {
        match all.pop() {
            Some(x) => {
                rest.push(x);
                assert(all@ =~= orig.subrange(0, all@.len() as int));
            },
            None => {},
        }
    }
    let mut kept: Vec<T> = Vec::new();
    let ghost mut after: Seq<T> = Seq::empty();
    while rest.len() > 0
        invariant
            plan.wf(),
            n == orig.len(),
            after.len() + rest@.len() == n,
            forall|m: int| 0 <= m < rest@.len() ==> rest@[m] == orig[n - 1 - m],
            forall|i: int|
                0 <= i < after.len() ==> T::subset_post(
                    orig[i],
                    #[trigger] after[i],
                    *plan,
                    Ok::<bool, Error>(after[i].kept()),
                ),
            kept@ == kept_items(after),
            kept@.len() <= after.len(),
            n == items@.len(),
            orig == items@,
        decreases rest@.len(),
    {
        let mut x = rest.pop().unwrap();
        let ghost before_x = x;
        assert(before_x == orig[after.len() as int]);
        let res = x.subset(plan);
        match res {
            Ok(keep) => {
                let ghost prev = after;
                proof {
                    after = prev.push(x);
                    assert(after.drop_last() =~= prev);
                    assert(after.last() == x);
                    assert forall|i: int|
                        0 <= i < after.len() implies T::subset_post(
                            orig[i],
                            #[trigger] after[i],
                            *plan,
                            Ok::<bool, Error>(after[i].kept()),
                        ) by {
                        if i < prev.len() {
                            assert(after[i] == prev[i]);
                        }
                    }
                }
                if keep {
                    kept.push(x);
                }
            },
            Err(e) => {
                return (kept, Some(e));
            },
        }
    }
    assert(after.len() == n && kept@ == kept_items(after));
    (kept, None)
}

/// The entries of `values` whose coverage id survives the plan, in order:
/// entry `i` is paired with `coverage[i]`.
pub open spec fn covered_values<T>(coverage: Seq<u16>, values: Seq<T>, plan: Plan) -> Seq<T>
    decreases values.len(),
{
    if values.len() == 0 {
        Seq::empty()
    } else {
        let n = values.len() - 1;
        let prev = covered_values(coverage, values.drop_last(), plan);
        if plan.gid(coverage[n]) is Some {
            prev.push(values[n])
        } else {
            prev
        }
    }
}

/// The ids of `coverage` that survive the plan, each replaced by its new id.
pub open spec fn remapped_ids(coverage: Seq<u16>, plan: Plan) -> Seq<u16>
    decreases coverage.len(),
{
    if coverage.len() == 0 {
        Seq::empty()
    } else {
        let n = coverage.len() - 1;
        let prev = remapped_ids(coverage.drop_last(), plan);
        match plan.gid(coverage[n]) {
            Some(g) => prev.push(g),
            None => prev,
        }
    }
}

/// Walks a coverage list and its parallel value array in one pass, keeping
/// each value whose coverage id survives. A value array longer than its
/// coverage has entries with no id, which is an error.
pub fn retain_covered<T>(coverage: &Vec<u16>, values: Vec<T>, plan: &Plan) -> (r: Result<Vec<T>, Error>)
    requires
        plan.wf(),
    ensures
        r is Ok <==> values@.len() <= coverage@.len(),
        r matches Ok(kept) ==> kept@ == covered_values(coverage@, values@, *plan),
{
    if values.len() > coverage.len() {
        return Err(Error::new("value array is longer than its coverage"));
    }
    let mut kept: Vec<T> = Vec::new();
    let mut rest = values;
    let ghost all = rest@;
    let mut taken: Vec<T> = Vec::new();
    // Move the values out in reverse, then walk them forwards.
    while rest.len() > 0
        invariant
            taken@.len() + rest@.len() == all.len(),
            rest@ == all.subrange(0, rest@.len() as int),
            forall|i: int| 0 <= i < taken@.len() ==> taken@[i] == all[all.len() - 1 - i],
        decreases rest@.len(),
    {
        let ghost before = rest@;
        match rest.pop() {
            Some(v) => {
                taken.push(v);
                proof {
                    assert(rest@ =~= all.subrange(0, rest@.len() as int));
                }
            },
            None => {},
        }
    }
    let mut i: usize = 0;
    let clen = coverage.len();
    while taken.len() > 0
        invariant
            clen == coverage@.len(),
            all.len() <= clen,
            i + taken@.len() == all.len(),
            forall|m: int| 0 <= m < taken@.len() ==> taken@[m] == all[all.len() - 1 - m],
            kept@ == covered_values(coverage@, all.subrange(0, i as int), *plan),
            plan.wf(),
        decreases taken@.len(),
    {
        let ghost before = taken@;
        assert(i < all.len());
        match taken.pop() {
            Some(v) => {
                proof {
                    assert(v == all[i as int]);
                    assert(all.subrange(0, i + 1).drop_last() =~= all.subrange(0, i as int));
                }
                if plan.remap_gid(coverage[i]).is_some() {
                    kept.push(v);
                }
                i = i + 1;
            },
            None => {},
        }
    }
    assert(all.subrange(0, i as int) =~= all);
    Ok(kept)
}

/// The retained ids of a coverage list, replaced by their new ids.
pub fn remap_coverage(coverage: &Vec<u16>, plan: &Plan) -> (r: Vec<u16>)
    requires
        plan.wf(),
    ensures
        r@ == remapped_ids(coverage@, *plan),
{
    let mut out: Vec<u16> = Vec::new();
    let mut i: usize = 0;
    while i < coverage.len()
        invariant
            plan.wf(),
            i <= coverage@.len(),
            out@ == remapped_ids(coverage@.subrange(0, i as int), *plan),
        decreases coverage@.len() - i,
    {
        proof {
            let s = coverage@.subrange(0, i + 1);
            assert(s.drop_last() =~= coverage@.subrange(0, i as int));
        }
        match plan.remap_gid(coverage[i]) {
            Some(g) => out.push(g),
            None => {},
        }
        i = i + 1;
    }
    assert(coverage@.subrange(0, i as int) =~= coverage@);
    out
}

} // verus!
