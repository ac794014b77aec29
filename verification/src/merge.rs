//! The merge of a load order into one override plugin.
//!
//! Plugins are visited from the last of the load order to the first. The
//! first record seen under a key claims it, so the definition of the
//! highest plugin wins and every lower one is dropped.

use crate::binary32::Binary32;
use crate::key::{object_key, ClaimedSet, ObjectKey};
use crate::light_config::LightConfig;
use crate::record::{AdjustedLight, CellRecord, LightRecord, PluginFile};
use crate::transform::{adjust_light, adjusted_light, strip_cell, stripped_cell};
use vstd::prelude::*;

verus! {

/// The format version of the generated plugin: 1.3.
pub const HEADER_VERSION_BITS: u32 = 0x3FA6_6666;

/// Where an emitted record comes from: the place of its plugin in the load
/// order, and its place among that plugin's records of its kind.
#[derive(Clone, Copy, Debug, PartialEq, Eq, Structural)]
pub struct Origin {
    pub plugin: usize,
    pub index: usize,
}

/// A record of the generated plugin.
#[derive(Clone, Debug)]
pub enum Record {
    Light(Origin, AdjustedLight),
    Cell(Origin, CellRecord),
}

/// A plugin that the generated plugin depends on.
#[derive(Clone, Debug)]
pub struct Master {
    pub name: String,
    pub size: u64,
}

#[derive(Clone, Debug)]
pub struct Header {
    pub version: Binary32,
    pub author: String,
    pub description: String,
    /// The number of records but the header.
    pub num_objects: u32,
    /// The plugins that a record was taken from, lowest of the load order
    /// first.
    pub masters: Vec<Master>,
}

/// The generated plugin: the header, then the lights, then the cells.
#[derive(Clone, Debug)]
pub struct OutputPlugin {
    pub header: Header,
    pub records: Vec<Record>,
}

impl OutputPlugin {
    /// What holds of every generated plugin: the header counts the records,
    /// and names at least one master.
    pub open spec fn well_formed(&self) -> bool {
        &&& self.header.num_objects == self.records@.len()
        &&& self.header.masters@.len() > 0
    }
}

/// Why a merge gave no plugin.
#[derive(Clone, Copy, Debug, PartialEq, Eq, Structural)]
pub enum MergeError {
    /// The load order names no plugin.
    NoPlugins,
    /// No plugin of the load order gave a record.
    NoMasters,
    /// More records than the header can count.
    TooManyObjects,
}

/// The generated plugin as a value.
pub ghost struct OutputModel {
    pub version: Binary32,
    pub author: Seq<char>,
    pub description: Seq<char>,
    pub num_objects: u32,
    pub masters: Seq<Master>,
    pub records: Seq<Record>,
}

impl View for OutputPlugin {
    type V = OutputModel;

    open spec fn view(&self) -> OutputModel {
        OutputModel {
            version: self.header.version,
            author: self.header.author@,
            description: self.header.description@,
            num_objects: self.header.num_objects,
            masters: self.header.masters@,
            records: self.records@,
        }
    }
}

/// A load order: for each content entry, lowest priority first, what its
/// plugin holds, or `None` where the entry is skipped.
pub type LoadOrder = Seq<Option<PluginFile>>;

pub open spec fn light_key(light: LightRecord) -> Seq<u8> {
    object_key(light.id@)
}

pub open spec fn cell_key(cell: CellRecord) -> Seq<u8> {
    object_key(cell.id@)
}

/// Whether light `i` of plugin `p` exists and has the key `k`.
pub open spec fn defines_light(plugins: LoadOrder, p: int, i: int, k: Seq<u8>) -> bool {
    &&& 0 <= p < plugins.len()
    &&& plugins[p] is Some
    &&& 0 <= i < plugins[p]->0.lights@.len()
    &&& light_key(plugins[p]->0.lights@[i]) == k
}

/// Whether cell `i` of plugin `p` exists, is an interior and has the key
/// `k`.
pub open spec fn defines_interior(plugins: LoadOrder, p: int, i: int, k: Seq<u8>) -> bool {
    &&& 0 <= p < plugins.len()
    &&& plugins[p] is Some
    &&& 0 <= i < plugins[p]->0.cells@.len()
    &&& plugins[p]->0.cells@[i].interior
    &&& cell_key(plugins[p]->0.cells@[i]) == k
}

/// The keys of the lights that are visited before light `i` of plugin
/// `p`: those of every plugin above `p`, and those before `i` in `p`.
pub open spec fn lights_claimed_before(plugins: LoadOrder, p: int, i: int) -> Set<Seq<u8>> {
    Set::new(
        |k: Seq<u8>|
            exists|q: int, j: int|
                #[trigger] defines_light(plugins, q, j, k) && (q > p || (q == p && j < i)),
    )
}

/// The keys of the interiors that are visited before cell `i` of plugin
/// `p`.
pub open spec fn interiors_claimed_before(plugins: LoadOrder, p: int, i: int) -> Set<Seq<u8>> {
    Set::new(
        |k: Seq<u8>|
            exists|q: int, j: int|
                #[trigger] defines_interior(plugins, q, j, k) && (q > p || (q == p && j < i)),
    )
}

/// Whether light `i` of plugin `p` is emitted: it is the first that is
/// visited under its key.
pub open spec fn light_wins(plugins: LoadOrder, p: int, i: int) -> bool {
    &&& 0 <= p < plugins.len()
    &&& plugins[p] is Some
    &&& 0 <= i < plugins[p]->0.lights@.len()
    &&& !lights_claimed_before(plugins, p, i).contains(light_key(plugins[p]->0.lights@[i]))
}

/// Whether cell `i` of plugin `p` is emitted, where interiors lose their
/// sunlight: it is an interior, and the first that is visited under its
/// key.
pub open spec fn cell_wins(plugins: LoadOrder, p: int, i: int) -> bool {
    &&& 0 <= p < plugins.len()
    &&& plugins[p] is Some
    &&& 0 <= i < plugins[p]->0.cells@.len()
    &&& plugins[p]->0.cells@[i].interior
    &&& !interiors_claimed_before(plugins, p, i).contains(cell_key(plugins[p]->0.cells@[i]))
}

/// The lights that plugin `p` gives among its first `upto`, in their
/// order.
pub open spec fn emitted_lights(plugins: LoadOrder, config: LightConfig, p: int, upto: int) -> Seq<
    Record,
>
    decreases upto,
{
    if upto <= 0 {
        Seq::empty()
    } else {
        let before = emitted_lights(plugins, config, p, upto - 1);
        if light_wins(plugins, p, upto - 1) {
            before.push(
                Record::Light(
                    Origin { plugin: p as usize, index: (upto - 1) as usize },
                    adjusted_light(plugins[p]->0.lights@[upto - 1], config),
                ),
            )
        } else {
            before
        }
    }
}

/// The cells that plugin `p` gives among its first `upto`, in their order.
pub open spec fn emitted_cells(plugins: LoadOrder, p: int, upto: int) -> Seq<Record>
    decreases upto,
{
    if upto <= 0 {
        Seq::empty()
    } else {
        let before = emitted_cells(plugins, p, upto - 1);
        if cell_wins(plugins, p, upto - 1) {
            before.push(
                Record::Cell(
                    Origin { plugin: p as usize, index: (upto - 1) as usize },
                    stripped_cell(plugins[p]->0.cells@[upto - 1]),
                ),
            )
        } else {
            before
        }
    }
}

/// All the lights that plugin `p` gives.
pub open spec fn plugin_lights(plugins: LoadOrder, config: LightConfig, p: int) -> Seq<Record> {
    if 0 <= p < plugins.len() && plugins[p] is Some {
        emitted_lights(plugins, config, p, plugins[p]->0.lights@.len() as int)
    } else {
        Seq::empty()
    }
}

/// All the cells that plugin `p` gives: none unless interiors lose their
/// sunlight.
pub open spec fn plugin_cells(plugins: LoadOrder, config: LightConfig, p: int) -> Seq<Record> {
    if 0 <= p < plugins.len() && plugins[p] is Some && config.disable_interior_sun {
        emitted_cells(plugins, p, plugins[p]->0.cells@.len() as int)
    } else {
        Seq::empty()
    }
}

/// The lights that the plugins from `from` upwards give, those of the last
/// plugin first.
pub open spec fn merged_lights(plugins: LoadOrder, config: LightConfig, from: int) -> Seq<Record>
    decreases plugins.len() - from,
{
    if from >= plugins.len() {
        Seq::empty()
    } else {
        merged_lights(plugins, config, from + 1) + plugin_lights(plugins, config, from)
    }
}

/// The cells that the plugins from `from` upwards give, those of the last
/// plugin first.
pub open spec fn merged_cells(plugins: LoadOrder, config: LightConfig, from: int) -> Seq<Record>
    decreases plugins.len() - from,
{
    if from >= plugins.len() {
        Seq::empty()
    } else {
        merged_cells(plugins, config, from + 1) + plugin_cells(plugins, config, from)
    }
}

/// Whether plugin `p` gives a record.
pub open spec fn contributes(plugins: LoadOrder, config: LightConfig, p: int) -> bool {
    plugin_lights(plugins, config, p).len() + plugin_cells(plugins, config, p).len() > 0
}

/// The plugins from `from` upwards that give a record, by name and size,
/// in the order of the load order.
pub open spec fn master_list(plugins: LoadOrder, config: LightConfig, from: int) -> Seq<Master>
    decreases plugins.len() - from,
{
    if from >= plugins.len() || from < 0 {
        Seq::empty()
    } else {
        let above = master_list(plugins, config, from + 1);
        if contributes(plugins, config, from) {
            seq![Master { name: plugins[from]->0.name, size: plugins[from]->0.size }] + above
        } else {
            above
        }
    }
}

/// What the merge of a load order gives.
pub open spec fn merged(plugins: LoadOrder, config: LightConfig) -> Result<
    OutputModel,
    MergeError,
> {
    let lights = merged_lights(plugins, config, 0);
    let cells = merged_cells(plugins, config, 0);
    if plugins.len() == 0 {
        Err(MergeError::NoPlugins)
    } else if master_list(plugins, config, 0).len() == 0 {
        Err(MergeError::NoMasters)
    } else if lights.len() + cells.len() > u32::MAX {
        Err(MergeError::TooManyObjects)
    } else {
        Ok(
            OutputModel {
                version: Binary32 { bits: HEADER_VERSION_BITS },
                author: "S3"@,
                description: "Plugin generated by s3-lightfixes"@,
                num_objects: (lights.len() + cells.len()) as u32,
                masters: master_list(plugins, config, 0),
                records: lights + cells,
            },
        )
    }
}

/// The lights before the first of a plugin are those of the plugins above
/// it; the lights before light `i + 1` are those before light `i`, and
/// light `i`.
proof fn lemma_lights_claimed_step(plugins: LoadOrder, p: int, i: int)
    requires
        0 <= p < plugins.len(),
    ensures
        plugins[p] is None ==> lights_claimed_before(plugins, p - 1, 0) == lights_claimed_before(
            plugins,
            p,
            0,
        ),
        plugins[p] is Some && i == plugins[p]->0.lights@.len() ==> lights_claimed_before(
            plugins,
            p - 1,
            0,
        ) == lights_claimed_before(plugins, p, i),
        plugins[p] is Some && 0 <= i < plugins[p]->0.lights@.len() ==> lights_claimed_before(
            plugins,
            p,
            i + 1,
        ) == lights_claimed_before(plugins, p, i).insert(light_key(plugins[p]->0.lights@[i])),
{
    if plugins[p] is None {
        assert(lights_claimed_before(plugins, p - 1, 0) =~= lights_claimed_before(plugins, p, 0));
    } else {
        if i == plugins[p]->0.lights@.len() {
            assert(lights_claimed_before(plugins, p - 1, 0) =~= lights_claimed_before(
                plugins,
                p,
                i,
            ));
        }
        if 0 <= i < plugins[p]->0.lights@.len() {
            let k = light_key(plugins[p]->0.lights@[i]);
            assert(defines_light(plugins, p, i, k));
            assert(lights_claimed_before(plugins, p, i + 1) =~= lights_claimed_before(
                plugins,
                p,
                i,
            ).insert(k));
        }
    }
}

proof fn lemma_interiors_claimed_step(plugins: LoadOrder, p: int, i: int)
    requires
        0 <= p < plugins.len(),
    ensures
        plugins[p] is None ==> interiors_claimed_before(plugins, p - 1, 0)
            == interiors_claimed_before(plugins, p, 0),
        plugins[p] is Some && i == plugins[p]->0.cells@.len() ==> interiors_claimed_before(
            plugins,
            p - 1,
            0,
        ) == interiors_claimed_before(plugins, p, i),
        plugins[p] is Some && 0 <= i < plugins[p]->0.cells@.len() && plugins[p]->0.cells@[i].interior
            ==> interiors_claimed_before(plugins, p, i + 1) == interiors_claimed_before(
            plugins,
            p,
            i,
        ).insert(cell_key(plugins[p]->0.cells@[i])),
        plugins[p] is Some && 0 <= i < plugins[p]->0.cells@.len()
            && !plugins[p]->0.cells@[i].interior ==> interiors_claimed_before(plugins, p, i + 1)
            == interiors_claimed_before(plugins, p, i),
{
    if plugins[p] is None {
        assert(interiors_claimed_before(plugins, p - 1, 0) =~= interiors_claimed_before(
            plugins,
            p,
            0,
        ));
    } else {
        if i == plugins[p]->0.cells@.len() {
            assert(interiors_claimed_before(plugins, p - 1, 0) =~= interiors_claimed_before(
                plugins,
                p,
                i,
            ));
        }
        if 0 <= i < plugins[p]->0.cells@.len() {
            let k = cell_key(plugins[p]->0.cells@[i]);
            if plugins[p]->0.cells@[i].interior {
                assert(defines_interior(plugins, p, i, k));
                assert(interiors_claimed_before(plugins, p, i + 1) =~= interiors_claimed_before(
                    plugins,
                    p,
                    i,
                ).insert(k));
            } else {
                assert(interiors_claimed_before(plugins, p, i + 1) =~= interiors_claimed_before(
                    plugins,
                    p,
                    i,
                ));
            }
        }
    }
}

/// Nothing is claimed before the last plugin is visited.
proof fn lemma_nothing_claimed_at_start(plugins: LoadOrder)
    ensures
        lights_claimed_before(plugins, plugins.len() - 1, 0) == Set::<Seq<u8>>::empty(),
        interiors_claimed_before(plugins, plugins.len() - 1, 0) == Set::<Seq<u8>>::empty(),
{
    assert(lights_claimed_before(plugins, plugins.len() - 1, 0) =~= Set::<Seq<u8>>::empty());
    assert(interiors_claimed_before(plugins, plugins.len() - 1, 0) =~= Set::<Seq<u8>>::empty());
}

/// Visits the lights of plugin `p`.
fn absorb_lights(
    plugins: &Vec<Option<PluginFile>>,
    p: usize,
    config: &LightConfig,
    claimed: &mut ClaimedSet,
    out: &mut Vec<Record>,
)
    requires
        p < plugins.len(),
        plugins[p as int] is Some,
        old(claimed)@ == lights_claimed_before(plugins@, p as int, 0),
    ensures
        final(claimed)@ == lights_claimed_before(plugins@, p - 1, 0),
        final(out)@ == old(out)@ + plugin_lights(plugins@, *config, p as int),
{
    let file = match &plugins[p] {
        Some(file) => file,
        None => {
            return ;
        },
    };
    let mut i: usize = 0;
    while i < file.lights.len()
        invariant
            p < plugins.len(),
            plugins[p as int] == Some(*file),
            i <= file.lights.len(),
            claimed@ == lights_claimed_before(plugins@, p as int, i as int),
            out@ == old(out)@ + emitted_lights(plugins@, *config, p as int, i as int),
        decreases file.lights.len() - i,
    {
        let light = &file.lights[i];
        proof {
            lemma_lights_claimed_step(plugins@, p as int, i as int);
        }
        let fresh = claimed.claim(ObjectKey::new(light.id.as_str()));
        if fresh {
            let adjusted = adjust_light(light, config);
            out.push(Record::Light(Origin { plugin: p, index: i }, adjusted));
        }
        assert(out@ =~= old(out)@ + emitted_lights(plugins@, *config, p as int, i + 1));
        i = i + 1;
    }
    proof {
        lemma_lights_claimed_step(plugins@, p as int, i as int);
    }
}

/// Visits the cells of plugin `p`, where interiors lose their sunlight.
fn absorb_cells(
    plugins: &Vec<Option<PluginFile>>,
    p: usize,
    claimed: &mut ClaimedSet,
    out: &mut Vec<Record>,
)
    requires
        p < plugins.len(),
        plugins[p as int] is Some,
        old(claimed)@ == interiors_claimed_before(plugins@, p as int, 0),
    ensures
        final(claimed)@ == interiors_claimed_before(plugins@, p - 1, 0),
        final(out)@ == old(out)@ + emitted_cells(
            plugins@,
            p as int,
            plugins[p as int]->0.cells@.len() as int,
        ),
{
    let file = match &plugins[p] {
        Some(file) => file,
        None => {
            return ;
        },
    };
    let mut i: usize = 0;
    while i < file.cells.len()
        invariant
            p < plugins.len(),
            plugins[p as int] == Some(*file),
            i <= file.cells.len(),
            claimed@ == interiors_claimed_before(plugins@, p as int, i as int),
            out@ == old(out)@ + emitted_cells(plugins@, p as int, i as int),
        decreases file.cells.len() - i,
    {
        let cell = &file.cells[i];
        proof {
            lemma_interiors_claimed_step(plugins@, p as int, i as int);
        }
        if cell.interior {
            let fresh = claimed.claim(ObjectKey::new(cell.id.as_str()));
            if fresh {
                let stripped = strip_cell(cell);
                out.push(Record::Cell(Origin { plugin: p, index: i }, stripped));
            }
        }
        assert(out@ =~= old(out)@ + emitted_cells(plugins@, p as int, i + 1));
        i = i + 1;
    }
    proof {
        lemma_interiors_claimed_step(plugins@, p as int, i as int);
    }
}

/// Merges a load order into one plugin.
///
/// `plugins` holds one entry for each content entry, lowest priority
/// first: what its plugin holds, or `None` where the entry is skipped. The
/// entries are visited from the last to the first. Of the records under one
/// key, only the first that is visited is emitted, adjusted; the lights
/// come first in the result, then the cells. A plugin that gives a record
/// is listed as a master.
pub fn merge_load_order(plugins: &Vec<Option<PluginFile>>, config: &LightConfig) -> (result:
    Result<OutputPlugin, MergeError>)
    ensures
        match result {
            Ok(out) => merged(plugins@, *config) == Ok::<OutputModel, MergeError>(out@),
            Err(e) => merged(plugins@, *config) == Err::<OutputModel, MergeError>(e),
        },
        plugins@.len() == 0 <==> result matches Err(MergeError::NoPlugins),
        result matches Ok(out) ==> out.well_formed(),
{
    if plugins.len() == 0 {
        return Err(MergeError::NoPlugins);
    }
    let mut claimed_lights = ClaimedSet::new();
    let mut claimed_cells = ClaimedSet::new();
    let mut lights: Vec<Record> = Vec::new();
    let mut cells: Vec<Record> = Vec::new();
    let mut masters: Vec<Master> = Vec::new();
    let mut p: usize = plugins.len();
    proof {
        lemma_nothing_claimed_at_start(plugins@);
    }
    while p > 0
        invariant
            p <= plugins.len(),
            claimed_lights@ == lights_claimed_before(plugins@, p - 1, 0),
            config.disable_interior_sun ==> claimed_cells@ == interiors_claimed_before(
                plugins@,
                p - 1,
                0,
            ),
            lights@ == merged_lights(plugins@, *config, p as int),
            cells@ == merged_cells(plugins@, *config, p as int),
            masters@ == master_list(plugins@, *config, p as int),
        decreases p,
    {
        p = p - 1;
        match &plugins[p] {
            None => {
                proof {
                    lemma_lights_claimed_step(plugins@, p as int, 0);
                    lemma_interiors_claimed_step(plugins@, p as int, 0);
                }
            },
            Some(file) => {
                let lights_before = lights.len();
                let cells_before = cells.len();
                if config.disable_interior_sun {
                    absorb_cells(plugins, p, &mut claimed_cells, &mut cells);
                }
                absorb_lights(plugins, p, config, &mut claimed_lights, &mut lights);
                if lights.len() > lights_before || cells.len() > cells_before {
                    masters.insert(0, Master { name: file.name.clone(), size: file.size });
                }
                assert(masters@ =~= master_list(plugins@, *config, p as int));
            },
        }
    }
    if masters.len() == 0 {
        return Err(MergeError::NoMasters);
    }
    if lights.len() > 0xFFFF_FFFF || cells.len() > 0xFFFF_FFFF - lights.len() {
        return Err(MergeError::TooManyObjects);
    }
    let num_objects = (lights.len() + cells.len()) as u32;
    lights.append(&mut cells);
    Ok(
        OutputPlugin {
            header: Header {
                version: Binary32 { bits: HEADER_VERSION_BITS },
                author: "S3".to_owned(),
                description: "Plugin generated by s3-lightfixes".to_owned(),
                num_objects,
                masters,
            },
            records: lights,
        },
    )
}

} // verus!
