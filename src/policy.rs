use vstd::prelude::*;
use crate::table::{
    entries_map, keys_unique, lemma_entries_map_at, lemma_entries_map_domain,
    lemma_entries_map_push, lemma_entries_map_update,
};

verus! {

/// How a module's partition is to be mounted.
#[derive(Debug, Clone, Copy, PartialEq, Eq, Structural)]
pub enum MountMode {
    Auto,
    Overlay,
    Magic,
    Hymo,
}

impl Default for MountMode {
    fn default() -> (r: Self)
        ensures
            r == MountMode::Auto,
    {
        MountMode::Auto
    }
}

impl MountMode {
    pub open spec fn name_spec(self) -> Seq<char> {
        match self {
            MountMode::Auto => seq!['a', 'u', 't', 'o'],
            MountMode::Overlay => seq!['o', 'v', 'e', 'r', 'l', 'a', 'y'],
            MountMode::Magic => seq!['m', 'a', 'g', 'i', 'c'],
            MountMode::Hymo => seq!['h', 'y', 'm', 'o'],
        }
    }

    /// The lower-case name used in the settings file and in listings.
    pub fn name(&self) -> (r: String)
        ensures
            r@ == self.name_spec(),
    {
        let s = match self {
            MountMode::Auto => "auto",
            MountMode::Overlay => "overlay",
            MountMode::Magic => "magic",
            MountMode::Hymo => "hymo",
        };
        proof {
            reveal_strlit("auto");
            reveal_strlit("overlay");
            reveal_strlit("magic");
            reveal_strlit("hymo");
        }
        let r = s.to_owned();
        proof {
            match self {
                MountMode::Auto => assert(r@ =~= self.name_spec()),
                MountMode::Overlay => assert(r@ =~= self.name_spec()),
                MountMode::Magic => assert(r@ =~= self.name_spec()),
                MountMode::Hymo => assert(r@ =~= self.name_spec()),
            }
        }
        r
    }
}

/// What a module's entry in the policy table means: a default mode and
/// sparse per-partition overrides.
pub struct ConfigModel {
    pub default_mode: MountMode,
    pub partitions: Map<Seq<char>, MountMode>,
}

pub open spec fn default_model() -> ConfigModel {
    ConfigModel { default_mode: MountMode::Auto, partitions: Map::empty() }
}

/// One module's policy: a default mode and per-partition overrides, each
/// partition name listed at most once.
pub struct PartitionConfig {
    pub default_mode: MountMode,
    pub partitions: Vec<(String, MountMode)>,
}

impl PartitionConfig {
    pub open spec fn overrides(&self) -> Seq<(Seq<char>, MountMode)> {
        self.partitions@.map_values(|e: (String, MountMode)| (e.0@, e.1))
    }

    pub open spec fn wf(&self) -> bool {
        keys_unique(self.overrides())
    }

    /// Records `mode` for `partition`, or as the default when no partition is named.
    pub fn set_override(&mut self, partition: Option<String>, mode: MountMode)
        requires
            old(self).wf(),
        ensures
            final(self).wf(),
            final(self)@ == update_model(old(self)@, opt_view(partition), mode),
    {
        match partition {
            None => {
                self.default_mode = mode;
                proof {
                    assert(self.overrides() =~= old(self).overrides());
                }
            },
            Some(part) => {
                match self.find_override(&part) {
                    Some(i) => {
                        proof {
                            lemma_entries_map_update(self.overrides(), i as int, mode);
                        }
                        self.partitions.set(i, (part, mode));
                        proof {
                            assert(self.overrides() =~= old(self).overrides().update(
                                i as int,
                                (old(self).overrides()[i as int].0, mode),
                            ));
                        }
                    },
                    None => {
                        proof {
                            lemma_entries_map_domain(self.overrides(), part@);
                            lemma_entries_map_push(self.overrides(), part@, mode);
                        }
                        self.partitions.push((part, mode));
                        proof {
                            assert(self.overrides() =~= old(self).overrides().push((part@, mode)));
                        }
                    },
                }
            },
        }
    }

    /// Index of the override for `part`, if there is one.
    fn find_override(&self, part: &String) -> (r: Option<usize>)
        requires
            self.wf(),
        ensures
            match r {
                Some(i) => i < self.partitions@.len() && self.partitions@[i as int].0@ == part@
                    && self@.partitions.contains_key(part@)
                    && self@.partitions[part@] == self.partitions@[i as int].1,
                None => !self@.partitions.contains_key(part@),
            },
    {
        let mut i: usize = 0;
        while i < self.partitions.len()
            invariant
                i <= self.partitions.len(),
                self.wf(),
                forall|k: int| 0 <= k < i ==> self.partitions@[k].0@ != part@,
            decreases self.partitions.len() - i,
        {
            if self.partitions[i].0 == *part {
                proof {
                    lemma_entries_map_at(self.overrides(), i as int);
                }
                return Some(i);
            }
            i = i + 1;
        }
        proof {
            lemma_entries_map_domain(self.overrides(), part@);
        }
        None
    }
}

impl View for PartitionConfig {
    type V = ConfigModel;

    open spec fn view(&self) -> ConfigModel {
        ConfigModel { default_mode: self.default_mode, partitions: entries_map(self.overrides()) }
    }
}

impl Default for PartitionConfig {
    fn default() -> (r: Self)
        ensures
            r.default_mode == MountMode::Auto,
            r.partitions@.len() == 0,
            r.wf(),
            r@ == default_model(),
    {
        let r = PartitionConfig { default_mode: MountMode::Auto, partitions: Vec::new() };
        proof {
            assert(r.overrides() =~= Seq::empty());
            assert(r@.partitions =~= Map::empty());
        }
        r
    }
}

pub open spec fn opt_view(p: Option<String>) -> Option<Seq<char>> {
    match p {
        Some(s) => Some(s@),
        None => None,
    }
}

/// A module's policy after recording `mode` for `partition` (or as its default).
pub open spec fn update_model(c: ConfigModel, partition: Option<Seq<char>>, mode: MountMode) -> ConfigModel {
    match partition {
        Some(p) => ConfigModel { partitions: c.partitions.insert(p, mode), ..c },
        None => ConfigModel { default_mode: mode, ..c },
    }
}

/// Mode resolution: partition override, then module default, then `Auto`.
pub open spec fn resolve_mode(
    m: Map<Seq<char>, ConfigModel>,
    id: Seq<char>,
    partition: Option<Seq<char>>,
) -> MountMode {
    if m.contains_key(id) {
        match partition {
            Some(p) => if m[id].partitions.contains_key(p) {
                m[id].partitions[p]
            } else {
                m[id].default_mode
            },
            None => m[id].default_mode,
        }
    } else {
        MountMode::Auto
    }
}

/// The table after an upsert of one mode, creating the module's entry on demand.
pub open spec fn set_model(
    m: Map<Seq<char>, ConfigModel>,
    id: Seq<char>,
    partition: Option<Seq<char>>,
    mode: MountMode,
) -> Map<Seq<char>, ConfigModel> {
    let base = if m.contains_key(id) {
        m[id]
    } else {
        default_model()
    };
    m.insert(id, update_model(base, partition, mode))
}

/// A module's policy as handed in by a bulk import.
pub struct ModuleDTO {
    pub id: String,
    pub config: PartitionConfig,
}

/// Applies the overrides of one imported entry, in order.
pub open spec fn apply_overrides(
    m: Map<Seq<char>, ConfigModel>,
    id: Seq<char>,
    ov: Seq<(Seq<char>, MountMode)>,
) -> Map<Seq<char>, ConfigModel>
    decreases ov.len(),
{
    if ov.len() == 0 {
        m
    } else {
        set_model(apply_overrides(m, id, ov.drop_last()), id, Some(ov.last().0), ov.last().1)
    }
}

/// Applies one imported entry: its default mode, then each of its overrides.
pub open spec fn apply_dto(m: Map<Seq<char>, ConfigModel>, d: ModuleDTO) -> Map<Seq<char>, ConfigModel> {
    apply_overrides(set_model(m, d.id@, None, d.config.default_mode), d.id@, d.config.overrides())
}

/// Applies imported entries in order: the last write to a key wins.
pub open spec fn import_model(m: Map<Seq<char>, ConfigModel>, list: Seq<ModuleDTO>) -> Map<
    Seq<char>,
    ConfigModel,
>
    decreases list.len(),
{
    if list.len() == 0 {
        m
    } else {
        apply_dto(import_model(m, list.drop_last()), list.last())
    }
}

/// The persisted policy table: module id to that module's policy, each id once.
pub struct ModuleSettings {
    pub modules: Vec<(String, PartitionConfig)>,
}

impl View for ModuleSettings {
    type V = Map<Seq<char>, ConfigModel>;

    open spec fn view(&self) -> Map<Seq<char>, ConfigModel> {
        entries_map(self.entries())
    }
}

impl Default for ModuleSettings {
    fn default() -> (r: Self)
        ensures
            r.wf(),
            r@ == Map::<Seq<char>, ConfigModel>::empty(),
    {
        let r = ModuleSettings { modules: Vec::new() };
        proof {
            assert(r.entries() =~= Seq::empty());
        }
        r
    }
}

impl ModuleSettings {
    pub open spec fn entries(&self) -> Seq<(Seq<char>, ConfigModel)> {
        self.modules@.map_values(|e: (String, PartitionConfig)| (e.0@, e.1@))
    }

    pub open spec fn wf(&self) -> bool {
        &&& keys_unique(self.entries())
        &&& forall|i: int| 0 <= i < self.modules@.len() ==> (#[trigger] self.modules@[i]).1.wf()
    }

    /// Index of the entry for `id`, if there is one.
    fn find(&self, id: &String) -> (r: Option<usize>)
        requires
            self.wf(),
        ensures
            match r {
                Some(i) => i < self.modules@.len() && self.modules@[i as int].0@ == id@
                    && self@.contains_key(id@) && self@[id@] == self.modules@[i as int].1@,
                None => !self@.contains_key(id@),
            },
    {
        let mut i: usize = 0;
        while i < self.modules.len()
            invariant
                i <= self.modules.len(),
                self.wf(),
                forall|k: int| 0 <= k < i ==> self.modules@[k].0@ != id@,
            decreases self.modules.len() - i,
        {
            if self.modules[i].0 == *id {
                proof {
                    lemma_entries_map_at(self.entries(), i as int);
                }
                return Some(i);
            }
            i = i + 1;
        }
        proof {
            lemma_entries_map_domain(self.entries(), id@);
        }
        None
    }

    /// The mode for a module's partition, or for the module as a whole when
    /// no partition is named.  Total: unknown modules resolve to `Auto`.
    pub fn get_mode(&self, module_id: &str, partition: Option<&str>) -> (r: MountMode)
        requires
            self.wf(),
        ensures
            r == resolve_mode(
                self@,
                module_id@,
                match partition {
                    Some(p) => Some(p@),
                    None => None,
                },
            ),
    {
        let key = module_id.to_owned();
        match self.find(&key) {
            None => MountMode::Auto,
            Some(i) => {
                let config = &self.modules[i].1;
                proof {
                    assert(self.modules@[i as int].1.wf());
                }
                match partition {
                    None => config.default_mode,
                    Some(p) => {
                        let part = p.to_owned();
                        match config.find_override(&part) {
                            Some(j) => config.partitions[j].1,
                            None => config.default_mode,
                        }
                    },
                }
            },
        }
    }

    /// Upserts a mode for a module (and partition), creating the module's entry on demand.
    pub fn set_mode(&mut self, module_id: String, partition: Option<String>, mode: MountMode)
        requires
            old(self).wf(),
        ensures
            final(self).wf(),
            final(self)@ == set_model(old(self)@, module_id@, opt_view(partition), mode),
    {
        let ghost part_v = opt_view(partition);
        match self.find(&module_id) {
            Some(i) => {
                let (key, mut config) = self.modules.remove(i);
                proof {
                    assert(old(self).modules@[i as int].1.wf());
                }
                config.set_override(partition, mode);
                self.modules.insert(i, (key, config));
                proof {
                    let s = old(self).entries();
                    lemma_entries_map_update(s, i as int, config@);
                    assert(self.entries() =~= s.update(i as int, (s[i as int].0, config@)));
                    assert forall|k: int| 0 <= k < self.modules@.len() implies (
                    #[trigger] self.modules@[k]).1.wf() by {
                        if k != i {
                            assert(self.modules@[k] == old(self).modules@[k]);
                        }
                    }
                }
            },
            None => {
                let mut config = PartitionConfig::default();
                config.set_override(partition, mode);
                let ghost s = self.entries();
                proof {
                    lemma_entries_map_domain(s, module_id@);
                    lemma_entries_map_push(s, module_id@, config@);
                }
                self.modules.push((module_id, config));
                proof {
                    assert(self.entries() =~= s.push((module_id@, config@)));
                    assert forall|k: int| 0 <= k < self.modules@.len() implies (
                    #[trigger] self.modules@[k]).1.wf() by {
                        if k < old(self).modules@.len() {
                            assert(self.modules@[k] == old(self).modules@[k]);
                        }
                    }
                }
            },
        }
    }

    /// Merges imported entries in order, each overwriting what it names.
    pub fn import_from_list(&mut self, list: Vec<ModuleDTO>)
        requires
            old(self).wf(),
        ensures
            final(self).wf(),
            final(self)@ == import_model(old(self)@, list@),
    {
        let mut i: usize = 0;
        while i < list.len()
            invariant
                i <= list.len(),
                self.wf(),
                self@ == import_model(old(self)@, list@.take(i as int)),
            decreases list.len() - i,
        {
            let item = &list[i];
            let ghost before = self@;
            self.set_mode(item.id.clone(), None, item.config.default_mode);
            let mut j: usize = 0;
            while j < item.config.partitions.len()
                invariant
                    j <= item.config.partitions.len(),
                    self.wf(),
                    self@ == apply_overrides(
                        set_model(before, item.id@, None, item.config.default_mode),
                        item.id@,
                        item.config.overrides().take(j as int),
                    ),
                decreases item.config.partitions.len() - j,
            {
                let entry = &item.config.partitions[j];
                self.set_mode(item.id.clone(), Some(entry.0.clone()), entry.1);
                proof {
                    let ov = item.config.overrides();
                    assert(ov.take(j + 1).drop_last() =~= ov.take(j as int));
                }
                j = j + 1;
            }
            proof {
                assert(item.config.overrides().take(j as int) =~= item.config.overrides());
                assert(list@.take(i + 1).drop_last() =~= list@.take(i as int));
            }
            i = i + 1;
        }
        proof {
            assert(list@.take(i as int) =~= list@);
        }
    }
}

} // verus!
