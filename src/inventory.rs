use vstd::prelude::*;
use crate::policy::{resolve_mode, ModuleSettings};
use crate::table::{copy_strings, reverse_vec, sort_strings, str_le, strs_view};

verus! {

/// An installed module that provides at least one recognized partition.
pub struct Module {
    pub id: String,
    pub source_path: String,
    pub partitions: Vec<String>,
    pub mode: String,
}

/// What was observed of one entry of the module root directory.
pub struct Candidate {
    pub name: String,
    pub path: String,
    pub is_dir: bool,
    /// A disable, remove or skip-mount marker file is present.
    pub has_marker: bool,
    /// The recognized partition names present as subdirectories, in the
    /// order of the recognized set.
    pub partitions: Vec<String>,
}

pub open spec fn str_meta() -> Seq<char> {
    seq!['m', 'e', 't', 'a', '-', 'h', 'y', 'b', 'r', 'i', 'd']
}

pub open spec fn str_lost_found() -> Seq<char> {
    seq!['l', 'o', 's', 't', '+', 'f', 'o', 'u', 'n', 'd']
}

pub open spec fn str_git() -> Seq<char> {
    seq!['.', 'g', 'i', 't']
}

/// Directory names that are never modules.
pub open spec fn is_reserved(name: Seq<char>) -> bool {
    name == str_meta() || name == str_lost_found() || name == str_git()
}

/// Whether a candidate is a module that takes part in mounting.
pub open spec fn admitted(c: Candidate) -> bool {
    &&& c.is_dir
    &&& !is_reserved(c.name@)
    &&& !c.has_marker
    &&& c.partitions@.len() > 0
}

/// The admitted candidates, in their order.
pub open spec fn admitted_of(cs: Seq<Candidate>) -> Seq<Candidate>
    decreases cs.len(),
{
    if cs.len() == 0 {
        Seq::empty()
    } else if admitted(cs.last()) {
        admitted_of(cs.drop_last()).push(cs.last())
    } else {
        admitted_of(cs.drop_last())
    }
}

/// The module built from an admitted candidate under a policy table.
pub open spec fn module_matches(
    m: Module,
    c: Candidate,
    settings: Map<Seq<char>, crate::policy::ConfigModel>,
) -> bool {
    &&& m.id@ == c.name@
    &&& m.source_path@ == c.path@
    &&& m.partitions@ == c.partitions@
    &&& m.mode@ == resolve_mode(settings, c.name@, None).name_spec()
}

fn is_reserved_name(name: &String) -> (r: bool)
    ensures
        r == is_reserved(name@),
{
    proof {
        reveal_strlit("meta-hybrid");
        reveal_strlit("lost+found");
        reveal_strlit(".git");
    }
    let meta = "meta-hybrid".to_owned();
    let lost = "lost+found".to_owned();
    let git = ".git".to_owned();
    assert(meta@ =~= str_meta());
    assert(lost@ =~= str_lost_found());
    assert(git@ =~= str_git());
    *name == meta || *name == lost || *name == git
}

/// Builds the module list from the observed entries of the module root,
/// given in scan order: reserved names, non-directories, modules carrying a
/// marker and modules without a recognized partition are dropped.
pub fn scan(candidates: &Vec<Candidate>, settings: &ModuleSettings) -> (r: Vec<Module>)
    requires
        settings.wf(),
    ensures
        r@.len() == admitted_of(candidates@).len(),
        forall|i: int|
            0 <= i < r@.len() ==> module_matches(
                #[trigger] r@[i],
                admitted_of(candidates@)[i],
                settings@,
            ),
{
    let mut r: Vec<Module> = Vec::new();
    let mut i: usize = 0;
    while i < candidates.len()
        invariant
            i <= candidates.len(),
            settings.wf(),
            r@.len() == admitted_of(candidates@.take(i as int)).len(),
            forall|k: int|
                0 <= k < r@.len() ==> module_matches(
                    #[trigger] r@[k],
                    admitted_of(candidates@.take(i as int))[k],
                    settings@,
                ),
        decreases candidates.len() - i,
    {
        let c = &candidates[i];
        proof {
            assert(candidates@.take(i + 1).drop_last() =~= candidates@.take(i as int));
        }
        if c.is_dir && !is_reserved_name(&c.name) && !c.has_marker && c.partitions.len() > 0 {
            let mode = settings.get_mode(c.name.as_str(), None).name();
            let m = Module {
                id: c.name.clone(),
                source_path: c.path.clone(),
                partitions: copy_strings(&c.partitions),
                mode,
            };
            r.push(m);
        }
        i = i + 1;
    }
    proof {
        assert(candidates@.take(i as int) =~= candidates@);
    }
    r
}

/// The entry names of the module root in scan order: descending, so that a
/// higher id takes precedence when layers are stacked.
pub fn scan_order(names: Vec<String>) -> (r: Vec<String>)
    ensures
        strs_view(r@).len() == strs_view(names@).len(),
        forall|x: Seq<char>| strs_view(r@).contains(x) <==> strs_view(names@).contains(x),
        forall|i: int, j: int| 0 <= i < j < r@.len() ==> str_le(r@[j]@, r@[i]@),
{
    broadcast use vstd::seq_lib::group_to_multiset_ensures;
    let ghost nv = strs_view(names@);
    let sorted = sort_strings(names);
    let ghost sv = strs_view(sorted@);
    let r = reverse_vec(sorted);
    proof {
        assert(strs_view(r@) =~= sv.reverse());
        assert(sv.len() == sv.to_multiset().len());
        assert(nv.len() == nv.to_multiset().len());
        assert forall|x: Seq<char>| strs_view(r@).contains(x) <==> nv.contains(x) by {
            assert(sv.contains(x) <==> sv.to_multiset().count(x) > 0);
            assert(nv.contains(x) <==> nv.to_multiset().count(x) > 0);
            if sv.contains(x) {
                let k = choose|k: int| 0 <= k < sv.len() && sv[k] == x;
                assert(strs_view(r@)[sv.len() - 1 - k] == x);
            }
            if strs_view(r@).contains(x) {
                let k = choose|k: int| 0 <= k < sv.len() && strs_view(r@)[k] == x;
                assert(sv[sv.len() - 1 - k] == x);
            }
        }
        assert forall|i: int, j: int| 0 <= i < j < r@.len() implies str_le(r@[j]@, r@[i]@) by {
            assert(strs_view(r@)[i] == sv[sv.len() - 1 - i]);
            assert(strs_view(r@)[j] == sv[sv.len() - 1 - j]);
        }
    }
    r
}

/// A marked module never takes part in mounting, whatever it provides.
pub proof fn lemma_marked_never_scanned(cs: Seq<Candidate>, i: int)
    requires
        0 <= i < admitted_of(cs).len(),
    ensures
        !admitted_of(cs)[i].has_marker,
        admitted_of(cs)[i].partitions@.len() > 0,
        cs.contains(admitted_of(cs)[i]),
    decreases cs.len(),
{
    if cs.len() > 0 {
        if admitted(cs.last()) && i == admitted_of(cs).len() - 1 {
            assert(cs[cs.len() - 1] == cs.last());
        } else {
            lemma_marked_never_scanned(cs.drop_last(), i);
            let j = choose|j: int| 0 <= j < cs.drop_last().len() && cs.drop_last()[j] == admitted_of(cs.drop_last())[i];
            assert(cs[j] == cs.drop_last()[j]);
        }
    }
}

} // verus!
