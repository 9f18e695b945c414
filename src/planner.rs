use vstd::prelude::*;
use crate::inventory::Module;
use crate::policy::{resolve_mode, ConfigModel, ModuleSettings, MountMode};
use crate::table::reverse_vec;

verus! {

/// One partition directory of one module: the source `root/partition`, and
/// the live mount point `/partition`.
pub struct Layer {
    pub module_id: String,
    pub root: String,
    pub partition: String,
}

/// A layer as plain values: module id, module root, partition name.
pub type LayerV = (Seq<char>, Seq<char>, Seq<char>);

impl View for Layer {
    type V = LayerV;

    open spec fn view(&self) -> LayerV {
        (self.module_id@, self.root@, self.partition@)
    }
}

impl Layer {
    /// A copy of this layer.
    pub fn copy(&self) -> (r: Layer)
        ensures
            r@ == self@,
    {
        Layer {
            module_id: self.module_id.clone(),
            root: self.root.clone(),
            partition: self.partition.clone(),
        }
    }

    /// The source directory, `root/partition`.
    pub fn source(&self) -> (r: String)
        ensures
            r@ == self.root@ + seq!['/'] + self.partition@,
    {
        proof {
            reveal_strlit("/");
        }
        let r = self.root.clone().concat("/").concat(self.partition.as_str());
        assert(r@ =~= self.root@ + seq!['/'] + self.partition@);
        r
    }

    /// The live mount point, `/partition`.
    pub fn target(&self) -> (r: String)
        ensures
            r@ == seq!['/'] + self.partition@,
    {
        proof {
            reveal_strlit("/");
        }
        let r = "/".to_owned().concat(self.partition.as_str());
        assert(r@ =~= seq!['/'] + self.partition@);
        r
    }
}

/// The union-mount layers of one partition, highest precedence first.
pub struct OverlayGroup {
    pub partition: String,
    pub lowerdirs: Vec<Layer>,
}

pub type GroupV = (Seq<char>, Seq<LayerV>);

impl View for OverlayGroup {
    type V = GroupV;

    open spec fn view(&self) -> GroupV {
        (self.partition@, self.lowerdirs@.map_values(|l: Layer| l@))
    }
}

pub open spec fn groups_view(g: Seq<OverlayGroup>) -> Seq<GroupV> {
    g.map_values(|x: OverlayGroup| x@)
}

pub open spec fn layers_view(s: Seq<Layer>) -> Seq<LayerV> {
    s.map_values(|l: Layer| l@)
}

/// The declarative result of planning.
pub struct MountPlan {
    pub overlay_targets: Vec<OverlayGroup>,
    pub magic_targets: Vec<Layer>,
    pub hymo_targets: Vec<Layer>,
}

pub struct PlanModel {
    pub overlay: Seq<GroupV>,
    pub magic: Seq<LayerV>,
    pub hymo: Seq<LayerV>,
}

impl View for MountPlan {
    type V = PlanModel;

    open spec fn view(&self) -> PlanModel {
        PlanModel {
            overlay: groups_view(self.overlay_targets@),
            magic: layers_view(self.magic_targets@),
            hymo: layers_view(self.hymo_targets@),
        }
    }
}

/// The strategy a planned layer is routed to.
pub enum Strategy {
    Overlay,
    Magic,
    Hymo,
}

/// Magic and Hymo are taken as asked; Auto and Overlay need a directory
/// source, and fall back to Magic otherwise.
pub open spec fn strategy_of(mode: MountMode, is_dir: bool) -> Strategy {
    match mode {
        MountMode::Magic => Strategy::Magic,
        MountMode::Hymo => Strategy::Hymo,
        _ => if is_dir {
            Strategy::Overlay
        } else {
            Strategy::Magic
        },
    }
}

/// The layers of one module with their strategies, in partition order.
pub open spec fn module_entries(
    m: Module,
    settings: Map<Seq<char>, ConfigModel>,
    dirs: Seq<bool>,
) -> Seq<(LayerV, Strategy)> {
    Seq::new(
        m.partitions@.len(),
        |j: int|
            (
                (m.id@, m.source_path@, m.partitions@[j]@),
                strategy_of(resolve_mode(settings, m.id@, Some(m.partitions@[j]@)), dirs[j]),
            ),
    )
}

/// The layers of the first `n` modules with their strategies, in inventory order.
pub open spec fn plan_entries(
    ms: Seq<Module>,
    settings: Map<Seq<char>, ConfigModel>,
    dirs: Seq<Vec<bool>>,
    n: int,
) -> Seq<(LayerV, Strategy)>
    decreases n,
{
    if n <= 0 {
        Seq::empty()
    } else {
        plan_entries(ms, settings, dirs, n - 1) + module_entries(ms[n - 1], settings, dirs[n - 1]@)
    }
}

/// The layers routed to strategy `k`, in order.
pub open spec fn pick(es: Seq<(LayerV, Strategy)>, k: Strategy) -> Seq<LayerV>
    decreases es.len(),
{
    if es.len() == 0 {
        Seq::empty()
    } else if es.last().1 == k {
        pick(es.drop_last(), k).push(es.last().0)
    } else {
        pick(es.drop_last(), k)
    }
}

/// Index of the first group for partition `p` at or after `i`, or -1.
pub open spec fn find_group(g: Seq<GroupV>, p: Seq<char>, i: int) -> int
    decreases g.len() - i,
{
    if i < 0 || i >= g.len() {
        -1
    } else if g[i].0 == p {
        i
    } else {
        find_group(g, p, i + 1)
    }
}

/// The groups after appending a layer to the group of its partition,
/// opening that group at the end when there is none.
pub open spec fn group_add(g: Seq<GroupV>, l: LayerV) -> Seq<GroupV> {
    let i = find_group(g, l.2, 0);
    if i >= 0 {
        g.update(i, (g[i].0, g[i].1.push(l)))
    } else {
        g.push((l.2, seq![l]))
    }
}

/// The groups after appending each of `ls` in turn.
pub open spec fn group_all(g: Seq<GroupV>, ls: Seq<LayerV>) -> Seq<GroupV>
    decreases ls.len(),
{
    if ls.len() == 0 {
        g
    } else {
        group_add(group_all(g, ls.drop_last()), ls.last())
    }
}

/// The plan for modules in inventory order: overlay layers grouped by
/// partition in that order; magic and hymo layers in the reverse order.
pub open spec fn plan_model(
    ms: Seq<Module>,
    settings: Map<Seq<char>, ConfigModel>,
    dirs: Seq<Vec<bool>>,
) -> PlanModel {
    let es = plan_entries(ms, settings, dirs, ms.len() as int);
    PlanModel {
        overlay: group_all(Seq::empty(), pick(es, Strategy::Overlay)),
        magic: pick(es, Strategy::Magic).reverse(),
        hymo: pick(es, Strategy::Hymo).reverse(),
    }
}

/// Appends a layer to the group of its partition, opening one when needed.
pub fn add_to_group(groups: &mut Vec<OverlayGroup>, layer: Layer)
    ensures
        groups_view(final(groups)@) == group_add(groups_view(old(groups)@), layer@),
{
    let ghost g = groups_view(groups@);
    let mut i: usize = 0;
    let mut found = false;
    while !found && i < groups.len()
        invariant
            i <= groups.len(),
            g == groups_view(groups@),
            found ==> i < groups.len() && groups@[i as int].partition@ == layer.partition@,
            find_group(g, layer.partition@, 0) == if found {
                i as int
            } else {
                find_group(g, layer.partition@, i as int)
            },
        decreases groups.len() - i + (if found { 0int } else { 1int }),
    {
        if groups[i].partition == layer.partition {
            found = true;
        } else {
            i = i + 1;
        }
    }
    if found {
        let mut group = groups.remove(i);
        let ghost lv = layer@;
        group.lowerdirs.push(layer);
        groups.insert(i, group);
        proof {
            assert(group.lowerdirs@.map_values(|l: Layer| l@) =~= g[i as int].1.push(lv));
            assert(groups_view(groups@) =~= group_add(g, lv));
        }
    } else {
        let ghost lv = layer@;
        assert(g.len() == groups@.len());
        assert(i == groups.len());
        assert(find_group(g, lv.2, i as int) == -1);
        let p = layer.partition.clone();
        let mut lowerdirs: Vec<Layer> = Vec::new();
        lowerdirs.push(layer);
        groups.push(OverlayGroup { partition: p, lowerdirs });
        proof {
            assert(lowerdirs@.map_values(|l: Layer| l@) =~= seq![lv]);
            assert(groups_view(groups@) =~= group_add(g, lv));
        }
    }
}

proof fn lemma_pick_push(es: Seq<(LayerV, Strategy)>, e: (LayerV, Strategy), k: Strategy)
    ensures
        pick(es.push(e), k) == if e.1 == k {
            pick(es, k).push(e.0)
        } else {
            pick(es, k)
        },
{
    assert(es.push(e).drop_last() =~= es);
}

proof fn lemma_group_all_push(g: Seq<GroupV>, ls: Seq<LayerV>, l: LayerV)
    ensures
        group_all(g, ls.push(l)) == group_add(group_all(g, ls), l),
{
    assert(ls.push(l).drop_last() =~= ls);
}

/// The layers of `ls` for partition `p`, in order.
pub open spec fn of_partition(ls: Seq<LayerV>, p: Seq<char>) -> Seq<LayerV>
    decreases ls.len(),
{
    if ls.len() == 0 {
        Seq::empty()
    } else if ls.last().2 == p {
        of_partition(ls.drop_last(), p).push(ls.last())
    } else {
        of_partition(ls.drop_last(), p)
    }
}

proof fn lemma_find_group(g: Seq<GroupV>, p: Seq<char>, i: int)
    requires
        0 <= i,
    ensures
        find_group(g, p, i) == -1 ==> forall|j: int| i <= j < g.len() ==> g[j].0 != p,
        find_group(g, p, i) != -1 ==> i <= find_group(g, p, i) < g.len() && g[find_group(g, p, i)].0 == p,
    decreases g.len() - i,
{
    if i < g.len() && g[i].0 != p {
        lemma_find_group(g, p, i + 1);
    }
}

/// Grouping keeps precedence: each partition has at most one group, and a
/// group lists exactly the layers of its partition in the order they came,
/// so with modules in inventory order the higher id comes first.
pub proof fn lemma_group_precedence(ls: Seq<LayerV>)
    ensures
        forall|i: int, j: int|
            0 <= i < j < group_all(Seq::empty(), ls).len() ==> group_all(Seq::empty(), ls)[i].0
                != group_all(Seq::empty(), ls)[j].0,
        forall|i: int|
            0 <= i < group_all(Seq::empty(), ls).len() ==> (#[trigger] group_all(Seq::empty(), ls)[i]).1
                == of_partition(ls, group_all(Seq::empty(), ls)[i].0),
        forall|p: Seq<char>|
            (exists|i: int| 0 <= i < group_all(Seq::empty(), ls).len() && group_all(Seq::empty(), ls)[i].0 == p)
                || #[trigger] of_partition(ls, p).len() == 0,
    decreases ls.len(),
{
    if ls.len() > 0 {
        let prev = ls.drop_last();
        let l = ls.last();
        lemma_group_precedence(prev);
        let g = group_all(Seq::empty(), prev);
        let h = group_all(Seq::empty(), ls);
        let k = find_group(g, l.2, 0);
        lemma_find_group(g, l.2, 0);
        assert(h == group_add(g, l));
        assert forall|i: int| 0 <= i < h.len() implies (#[trigger] h[i]).1 == of_partition(ls, h[i].0) by {
            if i < g.len() {
                if h[i].0 == l.2 {
                    assert(i == k);
                }
            } else {
                assert(of_partition(prev, l.2).len() == 0);
                assert(of_partition(prev, l.2) =~= Seq::<LayerV>::empty());
            }
        }
        assert forall|p: Seq<char>|
            (exists|i: int| 0 <= i < h.len() && h[i].0 == p) || #[trigger] of_partition(ls, p).len() == 0 by {
            if p == l.2 {
                if k >= 0 {
                    assert(h[k].0 == p);
                } else {
                    assert(h[g.len() as int].0 == p);
                }
            } else if of_partition(prev, p).len() != 0 {
                let i = choose|i: int| 0 <= i < g.len() && g[i].0 == p;
                assert(h[i].0 == p);
            }
        }
    }
}

/// Planning is deterministic: any two plans that `generate` may return for
/// the same modules, policy and directory facts are the same plan.
pub proof fn lemma_generate_deterministic(
    first: PlanModel,
    second: PlanModel,
    ms: Seq<Module>,
    settings: Map<Seq<char>, ConfigModel>,
    dirs: Seq<Vec<bool>>,
)
    requires
        first == plan_model(ms, settings, dirs),
        second == plan_model(ms, settings, dirs),
    ensures
        first == second,
{
}

/// The plan for `modules`, given in inventory order (descending id), where
/// `source_is_dir[i][j]` tells whether the source of the `j`-th partition of
/// the `i`-th module is a directory.
pub fn generate(modules: &Vec<Module>, settings: &ModuleSettings, source_is_dir: &Vec<Vec<bool>>) -> (r: MountPlan)
    requires
        settings.wf(),
        source_is_dir@.len() == modules@.len(),
        forall|i: int|
            0 <= i < modules@.len() ==> (#[trigger] source_is_dir@[i])@.len()
                == modules@[i].partitions@.len(),
    ensures
        r@ == plan_model(modules@, settings@, source_is_dir@),
{
    let mut overlay: Vec<OverlayGroup> = Vec::new();
    let mut magic: Vec<Layer> = Vec::new();
    let mut hymo: Vec<Layer> = Vec::new();
    let ghost sv = settings@;
    let ghost ms = modules@;
    let ghost ds = source_is_dir@;
    let mut i: usize = 0;
    while i < modules.len()
        invariant
            i <= modules.len(),
            settings.wf(),
            sv == settings@,
            ms == modules@,
            ds == source_is_dir@,
            ds.len() == ms.len(),
            forall|k: int| 0 <= k < ms.len() ==> (#[trigger] ds[k])@.len() == ms[k].partitions@.len(),
            layers_view(magic@) == pick(plan_entries(ms, sv, ds, i as int), Strategy::Magic),
            layers_view(hymo@) == pick(plan_entries(ms, sv, ds, i as int), Strategy::Hymo),
            groups_view(overlay@) == group_all(
                Seq::empty(),
                pick(plan_entries(ms, sv, ds, i as int), Strategy::Overlay),
            ),
        decreases modules.len() - i,
    {
        let module = &modules[i];
        let dirs = &source_is_dir[i];
        let ghost done = plan_entries(ms, sv, ds, i as int);
        let ghost me = module_entries(ms[i as int], sv, ds[i as int]@);
        assert(dirs@.len() == module.partitions@.len());
        let mut j: usize = 0;
        while j < module.partitions.len()
            invariant
                j <= module.partitions.len(),
                settings.wf(),
                sv == settings@,
                *module == ms[i as int],
                *dirs == ds[i as int],
                dirs@.len() == module.partitions@.len(),
                me == module_entries(ms[i as int], sv, ds[i as int]@),
                layers_view(magic@) == pick(done + me.take(j as int), Strategy::Magic),
                layers_view(hymo@) == pick(done + me.take(j as int), Strategy::Hymo),
                groups_view(overlay@) == group_all(
                    Seq::empty(),
                    pick(done + me.take(j as int), Strategy::Overlay),
                ),
            decreases module.partitions.len() - j,
        {
            let partition = &module.partitions[j];
            let mode = settings.get_mode(module.id.as_str(), Some(partition.as_str()));
            let layer = Layer {
                module_id: module.id.clone(),
                root: module.source_path.clone(),
                partition: partition.clone(),
            };
            let ghost e = me[j as int];
            proof {
                assert((done + me.take(j + 1)) =~= (done + me.take(j as int)).push(e));
                lemma_pick_push(done + me.take(j as int), e, Strategy::Magic);
                lemma_pick_push(done + me.take(j as int), e, Strategy::Hymo);
                lemma_pick_push(done + me.take(j as int), e, Strategy::Overlay);
                lemma_group_all_push(Seq::empty(), pick(done + me.take(j as int), Strategy::Overlay), e.0);
                assert(layer@ == e.0);
            }
            match mode {
                MountMode::Magic => {
                    magic.push(layer);
                    assert(layers_view(magic@) =~= pick(done + me.take(j + 1), Strategy::Magic));
                    assert(layers_view(hymo@) =~= pick(done + me.take(j + 1), Strategy::Hymo));
                },
                MountMode::Hymo => {
                    hymo.push(layer);
                    assert(layers_view(magic@) =~= pick(done + me.take(j + 1), Strategy::Magic));
                    assert(layers_view(hymo@) =~= pick(done + me.take(j + 1), Strategy::Hymo));
                },
                _ => {
                    if dirs[j] {
                        add_to_group(&mut overlay, layer);
                    } else {
                        magic.push(layer);
                        assert(layers_view(magic@) =~= pick(done + me.take(j + 1), Strategy::Magic));
                    }
                },
            }
            j = j + 1;
        }
        proof {
            assert(me.take(j as int) =~= me);
            assert(plan_entries(ms, sv, ds, i + 1) == done + me);
        }
        i = i + 1;
    }
    let magic_targets = reverse_vec(magic);
    let hymo_targets = reverse_vec(hymo);
    proof {
        assert(layers_view(magic_targets@) =~= layers_view(magic@).reverse());
        assert(layers_view(hymo_targets@) =~= layers_view(hymo@).reverse());
    }
    MountPlan { overlay_targets: overlay, magic_targets, hymo_targets }
}

} // verus!
