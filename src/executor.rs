use vstd::prelude::*;
use crate::planner::{groups_view, layers_view, GroupV, Layer, LayerV, MountPlan, OverlayGroup, add_to_group};
use crate::table::{sorted_distinct, strs_view, is_sorted};

verus! {

/// The module ids that each strategy finally served, distinct and ascending.
pub struct ExecutionResult {
    pub overlay_module_ids: Vec<String>,
    pub magic_module_ids: Vec<String>,
    pub hymo_module_ids: Vec<String>,
}

/// Where a planned hymo layer ends up.
pub enum Route {
    Injected,
    ToOverlay,
    ToMagic,
}

/// A layer counts as injected only when the kernel feature is available and
/// the injection succeeded; otherwise a directory source falls back to the
/// union mount and any other source to the magic mount.
pub open spec fn hymo_route(available: bool, injected: bool, is_dir: bool) -> Route {
    if available && injected {
        Route::Injected
    } else if is_dir {
        Route::ToOverlay
    } else {
        Route::ToMagic
    }
}

/// The first `n` hymo layers that take route `k`, in order.
pub open spec fn routed(
    ls: Seq<LayerV>,
    available: bool,
    injected: Seq<bool>,
    dirs: Seq<bool>,
    k: Route,
    n: int,
) -> Seq<LayerV>
    decreases n,
{
    if n <= 0 {
        Seq::empty()
    } else if hymo_route(available, injected[n - 1], dirs[n - 1]) == k {
        routed(ls, available, injected, dirs, k, n - 1).push(ls[n - 1])
    } else {
        routed(ls, available, injected, dirs, k, n - 1)
    }
}

/// The hymo phase's outcome: layers served by injection, and the fallbacks.
pub struct HymoRouting {
    pub injected: Vec<Layer>,
    pub to_overlay: Vec<Layer>,
    pub to_magic: Vec<Layer>,
}

/// The layers handed to the injection primitive: all hymo targets when the
/// kernel feature is available, none otherwise.
pub fn hymo_attempts(plan: &MountPlan, available: bool) -> (r: Vec<Layer>)
    ensures
        available ==> layers_view(r@) == plan@.hymo,
        !available ==> r@.len() == 0,
{
    let mut r: Vec<Layer> = Vec::new();
    if available {
        append_copies(&mut r, &plan.hymo_targets);
        assert(layers_view(r@) =~= plan@.hymo);
    }
    r
}

/// Routes each hymo target by the probe result, the injection outcome
/// (`injected[i]`, read only when the feature is available) and whether its
/// source is a directory (`source_is_dir[i]`).
pub fn route_hymo(
    plan: &MountPlan,
    available: bool,
    injected: &Vec<bool>,
    source_is_dir: &Vec<bool>,
) -> (r: HymoRouting)
    requires
        source_is_dir@.len() == plan.hymo_targets@.len(),
        available ==> injected@.len() == plan.hymo_targets@.len(),
    ensures
        layers_view(r.injected@) == routed(plan@.hymo, available, injected@, source_is_dir@, Route::Injected, plan@.hymo.len() as int),
        layers_view(r.to_overlay@) == routed(plan@.hymo, available, injected@, source_is_dir@, Route::ToOverlay, plan@.hymo.len() as int),
        layers_view(r.to_magic@) == routed(plan@.hymo, available, injected@, source_is_dir@, Route::ToMagic, plan@.hymo.len() as int),
        !available ==> r.injected@.len() == 0,
{
    let ghost hs = plan@.hymo;
    let mut out = HymoRouting { injected: Vec::new(), to_overlay: Vec::new(), to_magic: Vec::new() };
    let mut i: usize = 0;
    while i < plan.hymo_targets.len()
        invariant
            i <= plan.hymo_targets.len(),
            hs == plan@.hymo,
            source_is_dir@.len() == plan.hymo_targets@.len(),
            available ==> injected@.len() == plan.hymo_targets@.len(),
            layers_view(out.injected@) == routed(hs, available, injected@, source_is_dir@, Route::Injected, i as int),
            layers_view(out.to_overlay@) == routed(hs, available, injected@, source_is_dir@, Route::ToOverlay, i as int),
            layers_view(out.to_magic@) == routed(hs, available, injected@, source_is_dir@, Route::ToMagic, i as int),
            !available ==> out.injected@.len() == 0,
        decreases plan.hymo_targets.len() - i,
    {
        let layer = plan.hymo_targets[i].copy();
        assert(layer@ == hs[i as int]);
        if available && injected[i] {
            out.injected.push(layer);
            assert(layers_view(out.injected@) =~= routed(hs, available, injected@, source_is_dir@, Route::Injected, i + 1));
        } else if source_is_dir[i] {
            out.to_overlay.push(layer);
            assert(layers_view(out.to_overlay@) =~= routed(hs, available, injected@, source_is_dir@, Route::ToOverlay, i + 1));
        } else {
            out.to_magic.push(layer);
            assert(layers_view(out.to_magic@) =~= routed(hs, available, injected@, source_is_dir@, Route::ToMagic, i + 1));
        }
        i = i + 1;
    }
    out
}

/// Appends copies of `src` to `dst`.
pub fn append_copies(dst: &mut Vec<Layer>, src: &Vec<Layer>)
    ensures
        layers_view(final(dst)@) == layers_view(old(dst)@) + layers_view(src@),
{
    let mut i: usize = 0;
    while i < src.len()
        invariant
            i <= src.len(),
            layers_view(dst@) == layers_view(old(dst)@) + layers_view(src@.take(i as int)),
        decreases src.len() - i,
    {
        let ghost before = layers_view(dst@);
        let l = src[i].copy();
        dst.push(l);
        assert(layers_view(dst@) =~= before.push(l@));
        assert(layers_view(src@.take(i + 1)) =~= layers_view(src@.take(i as int)).push(l@));
        assert(layers_view(dst@) =~= layers_view(old(dst)@) + layers_view(src@.take(i + 1)));
        i = i + 1;
    }
    assert(src@.take(i as int) =~= src@);
}

/// Adds the hymo fallbacks to the overlay groups: each joins the group of its
/// partition, after the layers already there.
pub fn merge_fallbacks(groups: Vec<OverlayGroup>, fallbacks: &Vec<Layer>) -> (r: Vec<OverlayGroup>)
    ensures
        groups_view(r@) == crate::planner::group_all(groups_view(groups@), layers_view(fallbacks@)),
{
    let ghost g0 = groups_view(groups@);
    let mut groups = groups;
    let mut i: usize = 0;
    while i < fallbacks.len()
        invariant
            i <= fallbacks.len(),
            groups_view(groups@) == crate::planner::group_all(g0, layers_view(fallbacks@.take(i as int))),
        decreases fallbacks.len() - i,
    {
        let layer = fallbacks[i].copy();
        proof {
            assert(layers_view(fallbacks@.take(i + 1)) =~= layers_view(fallbacks@.take(i as int)).push(layer@));
            assert(layers_view(fallbacks@.take(i + 1)).drop_last() =~= layers_view(fallbacks@.take(i as int)));
        }
        add_to_group(&mut groups, layer);
        i = i + 1;
    }
    assert(fallbacks@.take(i as int) =~= fallbacks@);
    groups
}

/// What became of one partition's union mount.
pub enum Fate {
    Skipped,
    Mounted,
    Failed,
}

/// A partition whose mount point is not a directory is skipped; otherwise
/// the mount either succeeded or failed.
pub open spec fn fate_of(target_is_dir: bool, mounted: bool) -> Fate {
    if !target_is_dir {
        Fate::Skipped
    } else if mounted {
        Fate::Mounted
    } else {
        Fate::Failed
    }
}

/// The layers of the first `n` groups whose fate is `f`, in order.
pub open spec fn layers_of_fate(g: Seq<GroupV>, dirs: Seq<bool>, oks: Seq<bool>, f: Fate, n: int) -> Seq<LayerV>
    decreases n,
{
    if n <= 0 {
        Seq::empty()
    } else if fate_of(dirs[n - 1], oks[n - 1]) == f {
        layers_of_fate(g, dirs, oks, f, n - 1) + g[n - 1].1
    } else {
        layers_of_fate(g, dirs, oks, f, n - 1)
    }
}

/// The layers of the first `n` groups that were not mounted, in order.
pub open spec fn unmounted_layers(g: Seq<GroupV>, dirs: Seq<bool>, oks: Seq<bool>, n: int) -> Seq<LayerV>
    decreases n,
{
    if n <= 0 {
        Seq::empty()
    } else if fate_of(dirs[n - 1], oks[n - 1]) != Fate::Mounted {
        unmounted_layers(g, dirs, oks, n - 1) + g[n - 1].1
    } else {
        unmounted_layers(g, dirs, oks, n - 1)
    }
}

/// The union-mount phase's outcome.
pub struct OverlayOutcome {
    /// Layers of partitions that were mounted.
    pub mounted: Vec<Layer>,
    /// Layers of partitions whose mount failed.
    pub failed: Vec<Layer>,
    /// Layers of partitions that were skipped or failed: their modules go to
    /// the magic mount.
    pub to_magic: Vec<Layer>,
}

/// Settles the union-mount phase from, per group, whether its mount point is
/// a directory (`target_is_dir[k]`) and whether its mount succeeded
/// (`mounted[k]`, read only for groups that were not skipped).
pub fn settle_overlay(groups: &Vec<OverlayGroup>, target_is_dir: &Vec<bool>, mounted: &Vec<bool>) -> (r: OverlayOutcome)
    requires
        target_is_dir@.len() == groups@.len(),
        mounted@.len() == groups@.len(),
    ensures
        layers_view(r.mounted@) == layers_of_fate(groups_view(groups@), target_is_dir@, mounted@, Fate::Mounted, groups@.len() as int),
        layers_view(r.failed@) == layers_of_fate(groups_view(groups@), target_is_dir@, mounted@, Fate::Failed, groups@.len() as int),
        layers_view(r.to_magic@) == unmounted_layers(groups_view(groups@), target_is_dir@, mounted@, groups@.len() as int),
{
    let ghost g = groups_view(groups@);
    let mut out = OverlayOutcome { mounted: Vec::new(), failed: Vec::new(), to_magic: Vec::new() };
    let mut k: usize = 0;
    while k < groups.len()
        invariant
            k <= groups.len(),
            g == groups_view(groups@),
            target_is_dir@.len() == groups@.len(),
            mounted@.len() == groups@.len(),
            layers_view(out.mounted@) == layers_of_fate(g, target_is_dir@, mounted@, Fate::Mounted, k as int),
            layers_view(out.failed@) == layers_of_fate(g, target_is_dir@, mounted@, Fate::Failed, k as int),
            layers_view(out.to_magic@) == unmounted_layers(g, target_is_dir@, mounted@, k as int),
        decreases groups.len() - k,
    {
        let group = &groups[k];
        assert(layers_view(group.lowerdirs@) == g[k as int].1);
        if !target_is_dir[k] {
            append_copies(&mut out.to_magic, &group.lowerdirs);
        } else if mounted[k] {
            append_copies(&mut out.mounted, &group.lowerdirs);
        } else {
            append_copies(&mut out.failed, &group.lowerdirs);
            append_copies(&mut out.to_magic, &group.lowerdirs);
        }
        k = k + 1;
    }
    out
}

/// Every layer whose module root goes to the magic mount: the planned magic
/// targets, then the hymo and union-mount fallbacks.
pub fn magic_queue(plan: &MountPlan, hymo: &HymoRouting, overlay: &OverlayOutcome) -> (r: Vec<Layer>)
    ensures
        layers_view(r@) == plan@.magic + layers_view(hymo.to_magic@) + layers_view(overlay.to_magic@),
{
    let mut r: Vec<Layer> = Vec::new();
    append_copies(&mut r, &plan.magic_targets);
    append_copies(&mut r, &hymo.to_magic);
    append_copies(&mut r, &overlay.to_magic);
    assert(layers_view(r@) =~= plan@.magic + layers_view(hymo.to_magic@) + layers_view(overlay.to_magic@));
    r
}

/// The (module root, partition) pairs already served before the magic mount:
/// injected layers, then mounted union layers.
pub fn satisfied_layers(hymo: &HymoRouting, overlay: &OverlayOutcome) -> (r: Vec<Layer>)
    ensures
        layers_view(r@) == layers_view(hymo.injected@) + layers_view(overlay.mounted@),
{
    let mut r: Vec<Layer> = Vec::new();
    append_copies(&mut r, &hymo.injected);
    append_copies(&mut r, &overlay.mounted);
    assert(layers_view(r@) =~= layers_view(hymo.injected@) + layers_view(overlay.mounted@));
    r
}

pub open spec fn has_id(ls: Seq<LayerV>, id: Seq<char>) -> bool {
    exists|i: int| 0 <= i < ls.len() && ls[i].0 == id
}

pub open spec fn has_root(ls: Seq<LayerV>, root: Seq<char>) -> bool {
    exists|i: int| 0 <= i < ls.len() && ls[i].1 == root
}

/// Injection credit is earned only by an injection that was attempted and
/// succeeded: a module id among the injected layers belongs to a hymo target
/// whose injection succeeded while the kernel feature was available.
pub proof fn lemma_injection_credit(
    ls: Seq<LayerV>,
    available: bool,
    injected: Seq<bool>,
    dirs: Seq<bool>,
    n: int,
    x: Seq<char>,
)
    requires
        has_id(routed(ls, available, injected, dirs, Route::Injected, n), x),
    ensures
        available,
        exists|i: int| 0 <= i < n && ls[i].0 == x && injected[i],
    decreases n,
{
    let r = routed(ls, available, injected, dirs, Route::Injected, n);
    let prev = routed(ls, available, injected, dirs, Route::Injected, n - 1);
    if n > 0 {
        if hymo_route(available, injected[n - 1], dirs[n - 1]) == Route::Injected {
            let k = choose|k: int| 0 <= k < r.len() && r[k].0 == x;
            if k == r.len() - 1 {
                assert(ls[n - 1].0 == x);
            } else {
                assert(prev[k].0 == x);
                lemma_injection_credit(ls, available, injected, dirs, n - 1, x);
            }
        } else {
            lemma_injection_credit(ls, available, injected, dirs, n - 1, x);
        }
    }
}

/// Union-mount credit is earned only by a mount that was issued and
/// succeeded: a module id among the mounted layers has a layer in a group
/// whose mount point is a directory and whose mount succeeded.
pub proof fn lemma_overlay_credit(g: Seq<GroupV>, dirs: Seq<bool>, oks: Seq<bool>, n: int, x: Seq<char>)
    requires
        has_id(layers_of_fate(g, dirs, oks, Fate::Mounted, n), x),
    ensures
        exists|k: int| 0 <= k < n && dirs[k] && oks[k] && has_id(g[k].1, x),
    decreases n,
{
    let r = layers_of_fate(g, dirs, oks, Fate::Mounted, n);
    let prev = layers_of_fate(g, dirs, oks, Fate::Mounted, n - 1);
    if n > 0 {
        if fate_of(dirs[n - 1], oks[n - 1]) == Fate::Mounted {
            let k = choose|k: int| 0 <= k < r.len() && r[k].0 == x;
            if k < prev.len() {
                assert(prev[k].0 == x);
                lemma_overlay_credit(g, dirs, oks, n - 1, x);
            } else {
                assert(g[n - 1].1[k - prev.len()].0 == x);
            }
        } else {
            lemma_overlay_credit(g, dirs, oks, n - 1, x);
        }
    }
}

/// The module roots of the magic queue, distinct and ascending.
pub fn magic_roots(queue: &Vec<Layer>) -> (r: Vec<String>)
    ensures
        strs_view(r@).no_duplicates(),
        is_sorted(strs_view(r@)),
        forall|x: Seq<char>| strs_view(r@).contains(x) <==> has_root(layers_view(queue@), x),
{
    let mut roots: Vec<String> = Vec::new();
    let mut i: usize = 0;
    while i < queue.len()
        invariant
            i <= queue.len(),
            roots@.len() == i,
            forall|k: int| 0 <= k < i ==> (#[trigger] roots@[k])@ == queue@[k].root@,
        decreases queue.len() - i,
    {
        roots.push(queue[i].root.clone());
        i = i + 1;
    }
    let r = sorted_distinct(&roots);
    proof {
        assert forall|x: Seq<char>| strs_view(roots@).contains(x) <==> has_root(layers_view(queue@), x) by {
            if strs_view(roots@).contains(x) {
                let k = choose|k: int| 0 <= k < roots@.len() && strs_view(roots@)[k] == x;
                assert(layers_view(queue@)[k].1 == x);
            }
            if has_root(layers_view(queue@), x) {
                let k = choose|k: int| 0 <= k < queue@.len() && layers_view(queue@)[k].1 == x;
                assert(strs_view(roots@)[k] == x);
            }
        }
    }
    r
}

fn holds_id(ls: &Vec<Layer>, id: &String) -> (r: bool)
    ensures
        r == has_id(layers_view(ls@), id@),
{
    let mut i: usize = 0;
    while i < ls.len()
        invariant
            i <= ls.len(),
            forall|k: int| 0 <= k < i ==> ls@[k].module_id@ != id@,
        decreases ls.len() - i,
    {
        if ls[i].module_id == *id {
            assert(layers_view(ls@)[i as int].0 == id@);
            return true;
        }
        i = i + 1;
    }
    proof {
        if has_id(layers_view(ls@), id@) {
            let k = choose|k: int| 0 <= k < ls@.len() && layers_view(ls@)[k].0 == id@;
            assert(ls@[k].module_id@ == id@);
        }
    }
    false
}

/// The ids of `ls` that no layer of `except` carries, distinct and ascending.
fn ids_except(ls: &Vec<Layer>, except: &Vec<Layer>) -> (r: Vec<String>)
    ensures
        strs_view(r@).no_duplicates(),
        is_sorted(strs_view(r@)),
        forall|x: Seq<char>|
            strs_view(r@).contains(x) <==> (has_id(layers_view(ls@), x) && !has_id(layers_view(except@), x)),
{
    let mut ids: Vec<String> = Vec::new();
    let mut i: usize = 0;
    while i < ls.len()
        invariant
            i <= ls.len(),
            forall|x: Seq<char>|
                strs_view(ids@).contains(x) <==> (has_id(layers_view(ls@.take(i as int)), x) && !has_id(layers_view(except@), x)),
        decreases ls.len() - i,
    {
        let ghost before = strs_view(ids@);
        let ghost a = ls@[i as int].module_id@;
        let skip = holds_id(except, &ls[i].module_id);
        if !skip {
            ids.push(ls[i].module_id.clone());
        }
        proof {
            assert forall|x: Seq<char>|
                strs_view(ids@).contains(x) <==> (has_id(layers_view(ls@.take(i + 1)), x) && !has_id(layers_view(except@), x)) by {
                let pre = layers_view(ls@.take(i as int));
                let cur = layers_view(ls@.take(i + 1));
                assert(cur =~= pre.push(ls@[i as int]@));
                if has_id(cur, x) && x != a {
                    let k = choose|k: int| 0 <= k < cur.len() && cur[k].0 == x;
                    assert(pre[k].0 == x);
                }
                if has_id(pre, x) {
                    let k = choose|k: int| 0 <= k < pre.len() && pre[k].0 == x;
                    assert(cur[k].0 == x);
                }
                if x == a {
                    assert(cur[i as int].0 == x);
                }
                if !skip {
                    assert(strs_view(ids@) =~= before.push(a));
                    if strs_view(ids@).contains(x) && x != a {
                        let k = choose|k: int| 0 <= k < strs_view(ids@).len() && strs_view(ids@)[k] == x;
                        assert(before[k] == x);
                    }
                    if before.contains(x) {
                        let k = choose|k: int| 0 <= k < before.len() && before[k] == x;
                        assert(strs_view(ids@)[k] == x);
                    }
                    if x == a {
                        assert(strs_view(ids@)[before.len() as int] == x);
                    }
                }
            }
        }
        i = i + 1;
    }
    assert(ls@.take(i as int) =~= ls@);
    sorted_distinct(&ids)
}

/// The final report.  A module counts for the union mount when some layer of
/// it was mounted and none of its layers failed to mount (the retraction is
/// by id, across partitions); for the magic mount when its root was queued
/// and the batch did not fail; for injection when some layer was injected.
pub fn finish(queue: &Vec<Layer>, hymo: &HymoRouting, overlay: &OverlayOutcome, magic_ok: bool) -> (r: ExecutionResult)
    ensures
        strs_view(r.overlay_module_ids@).no_duplicates(),
        strs_view(r.magic_module_ids@).no_duplicates(),
        strs_view(r.hymo_module_ids@).no_duplicates(),
        is_sorted(strs_view(r.overlay_module_ids@)),
        is_sorted(strs_view(r.magic_module_ids@)),
        is_sorted(strs_view(r.hymo_module_ids@)),
        forall|x: Seq<char>| strs_view(r.overlay_module_ids@).contains(x) <==>
            (has_id(layers_view(overlay.mounted@), x) && !has_id(layers_view(overlay.failed@), x)),
        forall|x: Seq<char>| strs_view(r.magic_module_ids@).contains(x) <==>
            (magic_ok && has_id(layers_view(queue@), x)),
        forall|x: Seq<char>| strs_view(r.hymo_module_ids@).contains(x) <==>
            has_id(layers_view(hymo.injected@), x),
{
    let none: Vec<Layer> = Vec::new();
    assert(layers_view(none@) =~= Seq::empty());
    let overlay_ids = ids_except(&overlay.mounted, &overlay.failed);
    let hymo_ids = ids_except(&hymo.injected, &none);
    let magic_ids = if magic_ok {
        ids_except(queue, &none)
    } else {
        let e: Vec<String> = Vec::new();
        assert(strs_view(e@) =~= Seq::empty());
        e
    };
    ExecutionResult { overlay_module_ids: overlay_ids, magic_module_ids: magic_ids, hymo_module_ids: hymo_ids }
}

} // verus!
