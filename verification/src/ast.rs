//! The catalog data model: one record per installed ghost, and the catalog
//! document that carries a record list together with its update timestamp.

use vstd::prelude::*;
use vstd::std_specs::cmp::PartialEqSpec;

verus! {

/// Mathematical value of one catalog record: the three fields as character
/// sequences. Two records are duplicates exactly when their views are equal.
#[verifier::ext_equal]
pub struct GhostDataView {
    pub directory: Seq<char>,
    pub sakura_name: Seq<char>,
    pub kero_name: Seq<char>,
}

/// Mathematical value of a catalog document: the update timestamp text and
/// the ordered record list.
#[verifier::ext_equal]
pub struct GhostJsonView {
    pub update: Seq<char>,
    pub ghost_list: Seq<GhostDataView>,
}

/// One catalog entry: a logical installation directory name, the required
/// main character name, and the companion character name (empty when the
/// declaration was absent).
#[derive(Debug)]
pub struct GhostData {
    directory: String,
    sakura_name: String,
    kero_name: String,
}

/// The catalog document: an update timestamp (an already formatted RFC 3339
/// string with millisecond precision and a `Z` suffix) and the record list.
#[derive(Debug)]
pub struct GhostJson {
    update: String,
    ghost_list: Vec<GhostData>,
}

impl View for GhostData {
    type V = GhostDataView;

    closed spec fn view(&self) -> GhostDataView {
        GhostDataView {
            directory: self.directory@,
            sakura_name: self.sakura_name@,
            kero_name: self.kero_name@,
        }
    }
}

impl DeepView for GhostData {
    type V = GhostDataView;

    open spec fn deep_view(&self) -> GhostDataView {
        self.view()
    }
}

impl View for GhostJson {
    type V = GhostJsonView;

    closed spec fn view(&self) -> GhostJsonView {
        GhostJsonView { update: self.update@, ghost_list: self.ghost_list.deep_view() }
    }
}

impl GhostData {
    pub fn new(directory: String, sakura_name: String, kero_name: String) -> (r: GhostData)
        ensures
            r@ == (GhostDataView {
                directory: directory@,
                sakura_name: sakura_name@,
                kero_name: kero_name@,
            }),
    {
        GhostData { directory, sakura_name, kero_name }
    }

    pub fn directory(&self) -> (r: &String)
        ensures
            r@ == self@.directory,
    {
        &self.directory
    }

    pub fn sakura_name(&self) -> (r: &String)
        ensures
            r@ == self@.sakura_name,
    {
        &self.sakura_name
    }

    pub fn kero_name(&self) -> (r: &String)
        ensures
            r@ == self@.kero_name,
    {
        &self.kero_name
    }
}

impl Clone for GhostData {
    fn clone(&self) -> (r: Self)
        ensures
            r@ == self@,
    {
        GhostData {
            directory: self.directory.clone(),
            sakura_name: self.sakura_name.clone(),
            kero_name: self.kero_name.clone(),
        }
    }
}

impl PartialEq for GhostData {
    fn eq(&self, other: &GhostData) -> (r: bool) {
        self.directory == other.directory && self.sakura_name == other.sakura_name
            && self.kero_name == other.kero_name
    }
}

impl vstd::std_specs::cmp::PartialEqSpecImpl for GhostData {
    open spec fn obeys_eq_spec() -> bool {
        true
    }

    open spec fn eq_spec(&self, other: &GhostData) -> bool {
        self@ == other@
    }
}

impl GhostJson {
    /// Builds a catalog document from an already formatted timestamp and a
    /// record list. The caller is responsible for handing in a deduplicated
    /// list; the constructor stores it unchanged.
    pub fn new(update: String, ghost_list: Vec<GhostData>) -> (r: GhostJson)
        ensures
            r@ == (GhostJsonView { update: update@, ghost_list: ghost_list.deep_view() }),
    {
        GhostJson { update, ghost_list }
    }

    pub fn update(&self) -> (r: &String)
        ensures
            r@ == self@.update,
    {
        &self.update
    }

    pub fn ghost_list(&self) -> (r: &Vec<GhostData>)
        ensures
            r.deep_view() == self@.ghost_list,
    {
        &self.ghost_list
    }
}

impl Clone for GhostJson {
    fn clone(&self) -> (r: Self)
        ensures
            r@ == self@,
    {
        let mut list: Vec<GhostData> = Vec::new();
        let mut i: usize = 0;
        while i < self.ghost_list.len()
            invariant
                0 <= i <= self.ghost_list.len(),
                list.deep_view() =~= self.ghost_list.deep_view().take(i as int),
            decreases self.ghost_list.len() - i,
        {
            let g = self.ghost_list[i].clone();
            let ghost pre = list;
            list.push(g);
            proof {
                assert(pre.deep_view().len() == i);
                assert(pre.deep_view().len() == pre@.len());
                assert forall|j: int| 0 <= j < list.deep_view().len() implies list.deep_view()[j]
                    == self.ghost_list.deep_view().take(i as int + 1)[j] by {
                    if j < i {
                        assert(list@[j] == pre@[j]);
                        assert(pre.deep_view()[j] == self.ghost_list.deep_view().take(i as int)[j]);
                    } else {
                        assert(list@[j] == g);
                        assert(g@ == self.ghost_list[i as int]@);
                    }
                }
                assert(list.deep_view() =~= self.ghost_list.deep_view().take(i as int + 1));
            }
            i = i + 1;
        }
        proof {
            assert(list.deep_view() =~= self.ghost_list.deep_view());
        }
        let r = GhostJson { update: self.update.clone(), ghost_list: list };
        proof {
            assert(r@ =~= self@);
        }
        r
    }
}

impl PartialEq for GhostJson {
    fn eq(&self, other: &GhostJson) -> (r: bool) {
        let r = self.update == other.update && self.ghost_list == other.ghost_list;
        proof {
            let a = self.ghost_list;
            let b = other.ghost_list;
            if r {
                assert forall|i: int| 0 <= i < a.deep_view().len() implies a.deep_view()[i]
                    == b.deep_view()[i] by {
                    assert(a[i]@ == b[i]@);
                }
                assert(a.deep_view() =~= b.deep_view());
                assert(self@ =~= other@);
            } else if self@ == other@ {
                assert(self.update@ == other.update@);
                assert(a.deep_view() == b.deep_view());
                assert forall|i: int| 0 <= i < a.len() implies a[i].eq_spec(&b[i]) by {
                    assert(a.deep_view()[i] == b.deep_view()[i]);
                    assert(a[i]@ == b[i]@);
                }
                assert(false);
            }
        }
        r
    }
}

impl vstd::std_specs::cmp::PartialEqSpecImpl for GhostJson {
    open spec fn obeys_eq_spec() -> bool {
        true
    }

    open spec fn eq_spec(&self, other: &GhostJson) -> bool {
        self@ == other@
    }
}

} // verus!
