//! What holds of every merge: which definition of an object survives, how
//! often, and which plugins are listed as masters.

use crate::light_config::LightConfig;
use crate::key::object_key;
use crate::merge::{
    cell_key, cell_wins, contributes, defines_interior, defines_light, emitted_cells,
    emitted_lights, interiors_claimed_before, light_key, light_wins, lights_claimed_before,
    master_list, merged, merged_cells, merged_lights, plugin_cells, plugin_lights, LoadOrder,
    Master, MergeError, Origin, OutputModel, OutputPlugin, Record,
};
use crate::record::PluginFile;
use crate::transform::{adjusted_light, stripped_cell};
use vstd::prelude::*;

verus! {

/// The key of an emitted record.
pub open spec fn record_key(record: Record) -> Seq<u8> {
    match record {
        Record::Light(_, light) => object_key(light.id@),
        Record::Cell(_, cell) => object_key(cell.id@),
    }
}

/// Where an emitted record comes from.
pub open spec fn record_origin(record: Record) -> Origin {
    match record {
        Record::Light(origin, _) => origin,
        Record::Cell(origin, _) => origin,
    }
}

/// Whether `(q, j)` is visited before `(p, i)`: plugins from the last to
/// the first, the records of one plugin in their order.
pub open spec fn visited_before(q: int, j: int, p: int, i: int) -> bool {
    q > p || (q == p && j < i)
}

/// Whether the load order is one that a vector can hold.
pub open spec fn holdable(plugins: LoadOrder) -> bool {
    &&& plugins.len() <= usize::MAX
    &&& forall|p: int|
        0 <= p < plugins.len() && #[trigger] plugins[p] is Some ==> plugins[p]->0.lights@.len()
            <= usize::MAX && plugins[p]->0.cells@.len() <= usize::MAX
}

/// Whether `record` is light `i` of plugin `p`, adjusted, and that light is
/// the first visited under its key.
pub open spec fn is_winning_light(
    plugins: LoadOrder,
    config: LightConfig,
    record: Record,
    p: int,
    i: int,
) -> bool {
    &&& light_wins(plugins, p, i)
    &&& record == Record::Light(
        Origin { plugin: p as usize, index: i as usize },
        adjusted_light(plugins[p]->0.lights@[i], config),
    )
}

/// What plugin `p` gives among its first `upto` lights: each record is a
/// winning light of `p`, and they stand in the order of the plugin.
proof fn lemma_emitted_lights(plugins: LoadOrder, config: LightConfig, p: int, upto: int)
    requires
        holdable(plugins),
        0 <= p < plugins.len(),
        plugins[p] is Some,
        0 <= upto <= plugins[p]->0.lights@.len(),
    ensures
        forall|n: int|
            0 <= n < emitted_lights(plugins, config, p, upto).len() ==> {
                let r = #[trigger] emitted_lights(plugins, config, p, upto)[n];
                &&& record_origin(r).plugin == p
                &&& 0 <= record_origin(r).index < upto
                &&& is_winning_light(plugins, config, r, p, record_origin(r).index as int)
            },
        forall|n: int, m: int|
            0 <= n < m < emitted_lights(plugins, config, p, upto).len() ==> record_origin(
                #[trigger] emitted_lights(plugins, config, p, upto)[n],
            ).index < record_origin(#[trigger] emitted_lights(plugins, config, p, upto)[m]).index,
        forall|i: int|
            0 <= i < upto && #[trigger] light_wins(plugins, p, i) ==> exists|n: int|
                0 <= n < emitted_lights(plugins, config, p, upto).len() && is_winning_light(
                    plugins,
                    config,
                    #[trigger] emitted_lights(plugins, config, p, upto)[n],
                    p,
                    i,
                ),
    decreases upto,
{
    if upto > 0 {
        lemma_emitted_lights(plugins, config, p, upto - 1);
        let before = emitted_lights(plugins, config, p, upto - 1);
        let now = emitted_lights(plugins, config, p, upto);
        if light_wins(plugins, p, upto - 1) {
            assert(is_winning_light(plugins, config, now[before.len() as int], p, upto - 1));
        }
        assert forall|i: int| 0 <= i < upto && #[trigger] light_wins(plugins, p, i) implies exists|
            n: int,
        |
            0 <= n < now.len() && is_winning_light(plugins, config, #[trigger] now[n], p, i) by {
            if i < upto - 1 {
                let n = choose|n: int|
                    0 <= n < before.len() && is_winning_light(
                        plugins,
                        config,
                        #[trigger] before[n],
                        p,
                        i,
                    );
                assert(now[n] == before[n]);
            } else {
                assert(is_winning_light(plugins, config, now[before.len() as int], p, i));
            }
        }
    }
}

/// What the plugins from `from` upwards give: each record is a winning
/// light of one of them, they stand in the order of the visit, and no
/// winning light is missing.
proof fn lemma_merged_lights(plugins: LoadOrder, config: LightConfig, from: int)
    requires
        holdable(plugins),
        0 <= from <= plugins.len(),
    ensures
        forall|n: int|
            0 <= n < merged_lights(plugins, config, from).len() ==> {
                let r = #[trigger] merged_lights(plugins, config, from)[n];
                &&& from <= record_origin(r).plugin < plugins.len()
                &&& is_winning_light(
                    plugins,
                    config,
                    r,
                    record_origin(r).plugin as int,
                    record_origin(r).index as int,
                )
            },
        forall|n: int, m: int|
            0 <= n < m < merged_lights(plugins, config, from).len() ==> visited_before(
                record_origin(#[trigger] merged_lights(plugins, config, from)[n]).plugin as int,
                record_origin(merged_lights(plugins, config, from)[n]).index as int,
                record_origin(#[trigger] merged_lights(plugins, config, from)[m]).plugin as int,
                record_origin(merged_lights(plugins, config, from)[m]).index as int,
            ),
        forall|p: int, i: int|
            from <= p && #[trigger] light_wins(plugins, p, i) ==> exists|n: int|
                0 <= n < merged_lights(plugins, config, from).len() && is_winning_light(
                    plugins,
                    config,
                    #[trigger] merged_lights(plugins, config, from)[n],
                    p,
                    i,
                ),
    decreases plugins.len() - from,
{
    if from < plugins.len() {
        lemma_merged_lights(plugins, config, from + 1);
        let above = merged_lights(plugins, config, from + 1);
        let here = plugin_lights(plugins, config, from);
        let all = merged_lights(plugins, config, from);
        assert(all == above + here);
        if plugins[from] is Some {
            lemma_emitted_lights(
                plugins,
                config,
                from,
                plugins[from]->0.lights@.len() as int,
            );
        }
        assert forall|n: int| 0 <= n < all.len() implies {
            let r = #[trigger] all[n];
            &&& from <= record_origin(r).plugin < plugins.len()
            &&& is_winning_light(
                plugins,
                config,
                r,
                record_origin(r).plugin as int,
                record_origin(r).index as int,
            )
        } by {
            if n < above.len() {
                assert(all[n] == above[n]);
            } else {
                assert(all[n] == here[n - above.len()]);
            }
        }
        assert forall|n: int, m: int| 0 <= n < m < all.len() implies visited_before(
            record_origin(#[trigger] all[n]).plugin as int,
            record_origin(all[n]).index as int,
            record_origin(#[trigger] all[m]).plugin as int,
            record_origin(all[m]).index as int,
        ) by {
            if m < above.len() {
                assert(all[n] == above[n]);
                assert(all[m] == above[m]);
            } else if n < above.len() {
                assert(all[n] == above[n]);
                assert(all[m] == here[m - above.len()]);
            } else {
                assert(all[n] == here[n - above.len()]);
                assert(all[m] == here[m - above.len()]);
            }
        }
        assert forall|p: int, i: int| from <= p && #[trigger] light_wins(plugins, p, i) implies exists|
            n: int,
        |
            0 <= n < all.len() && is_winning_light(plugins, config, #[trigger] all[n], p, i) by {
            if p > from {
                let n = choose|n: int|
                    0 <= n < above.len() && is_winning_light(
                        plugins,
                        config,
                        #[trigger] above[n],
                        p,
                        i,
                    );
                assert(all[n] == above[n]);
            } else {
                let n = choose|n: int|
                    0 <= n < here.len() && is_winning_light(
                        plugins,
                        config,
                        #[trigger] here[n],
                        p,
                        i,
                    );
                assert(all[above.len() + n] == here[n]);
            }
        }
    }
}

proof fn lemma_holdable(plugins: Vec<Option<PluginFile>>)
    ensures
        holdable(plugins@),
{
    assert(plugins.len() <= usize::MAX);
    assert forall|p: int| 0 <= p < plugins@.len() && #[trigger] plugins@[p] is Some implies plugins@[p]->0.lights@.len()
        <= usize::MAX && plugins@[p]->0.cells@.len() <= usize::MAX by {
        assert(plugins@[p]->0.lights.len() <= usize::MAX);
        assert(plugins@[p]->0.cells.len() <= usize::MAX);
    }
}

/// The highest definition wins. Every light of a merge is the adjusted
/// form of one light of the load order, and no light of that key is
/// visited before that one: none stands in a plugin above, and none
/// earlier in the same plugin. What the lower plugins say of the key has no
/// part in the record.
pub proof fn lemma_surviving_light_is_highest(
    plugins: Vec<Option<PluginFile>>,
    config: LightConfig,
    n: int,
)
    requires
        0 <= n < merged_lights(plugins@, config, 0).len(),
    ensures
        ({
            let record = merged_lights(plugins@, config, 0)[n];
            let p = record_origin(record).plugin as int;
            let i = record_origin(record).index as int;
            &&& defines_light(plugins@, p, i, record_key(record))
            &&& record == Record::Light(
                record_origin(record),
                adjusted_light(plugins@[p]->0.lights@[i], config),
            )
            &&& forall|q: int, j: int| #[trigger]
                defines_light(plugins@, q, j, record_key(record)) ==> !visited_before(q, j, p, i)
        }),
{
    lemma_holdable(plugins);
    lemma_merged_lights(plugins@, config, 0);
    let record = merged_lights(plugins@, config, 0)[n];
    let p = record_origin(record).plugin as int;
    let i = record_origin(record).index as int;
    assert(is_winning_light(plugins@, config, record, p, i));
    assert forall|q: int, j: int| #[trigger]
        defines_light(plugins@, q, j, record_key(record)) implies !visited_before(q, j, p, i) by {
        if visited_before(q, j, p, i) {
            assert(lights_claimed_before(plugins@, p, i).contains(record_key(record)));
        }
    }
}

/// A key is emitted at most once: two lights of a merge that stand in
/// different places have different keys.
pub proof fn lemma_light_emitted_once(
    plugins: Vec<Option<PluginFile>>,
    config: LightConfig,
    n: int,
    m: int,
)
    requires
        0 <= n < merged_lights(plugins@, config, 0).len(),
        0 <= m < merged_lights(plugins@, config, 0).len(),
        record_key(merged_lights(plugins@, config, 0)[n]) == record_key(
            merged_lights(plugins@, config, 0)[m],
        ),
    ensures
        n == m,
{
    lemma_holdable(plugins);
    lemma_merged_lights(plugins@, config, 0);
    let all = merged_lights(plugins@, config, 0);
    if n != m {
        let (a, b) = if n < m {
            (n, m)
        } else {
            (m, n)
        };
        let first = all[a];
        let second = all[b];
        let k = record_key(second);
        assert(is_winning_light(
            plugins@,
            config,
            first,
            record_origin(first).plugin as int,
            record_origin(first).index as int,
        ));
        assert(is_winning_light(
            plugins@,
            config,
            second,
            record_origin(second).plugin as int,
            record_origin(second).index as int,
        ));
        assert(defines_light(
            plugins@,
            record_origin(first).plugin as int,
            record_origin(first).index as int,
            k,
        ));
        assert(lights_claimed_before(
            plugins@,
            record_origin(second).plugin as int,
            record_origin(second).index as int,
        ).contains(k));
    }
}

proof fn lemma_light_key_emitted(plugins: LoadOrder, config: LightConfig, p: int, i: int)
    requires
        holdable(plugins),
        defines_light(plugins, p, i, light_key(plugins[p]->0.lights@[i])),
    ensures
        exists|n: int|
            0 <= n < merged_lights(plugins, config, 0).len() && record_key(
                #[trigger] merged_lights(plugins, config, 0)[n],
            ) == light_key(plugins[p]->0.lights@[i]),
    decreases plugins.len() - p, i,
{
    let k = light_key(plugins[p]->0.lights@[i]);
    let all = merged_lights(plugins, config, 0);
    lemma_merged_lights(plugins, config, 0);
    if light_wins(plugins, p, i) {
        let n = choose|n: int|
            0 <= n < all.len() && is_winning_light(plugins, config, #[trigger] all[n], p, i);
        assert(record_key(all[n]) == k);
    } else {
        assert(lights_claimed_before(plugins, p, i).contains(k));
        let (q, j) = choose|q: int, j: int|
            #[trigger] defines_light(plugins, q, j, k) && (q > p || (q == p && j < i));
        lemma_light_key_emitted(plugins, config, q, j);
    }
}

/// No object is lost: for every light of every plugin that was read, the
/// merge holds a light of that key.
pub proof fn lemma_every_light_key_emitted(
    plugins: Vec<Option<PluginFile>>,
    config: LightConfig,
    p: int,
    i: int,
)
    requires
        0 <= p < plugins@.len(),
        plugins@[p] is Some,
        0 <= i < plugins@[p]->0.lights@.len(),
    ensures
        exists|n: int|
            0 <= n < merged_lights(plugins@, config, 0).len() && record_key(
                #[trigger] merged_lights(plugins@, config, 0)[n],
            ) == light_key(plugins@[p]->0.lights@[i]),
{
    lemma_holdable(plugins);
    lemma_light_key_emitted(plugins@, config, p, i);
}

/// Whether `record` is cell `i` of plugin `p`, stripped, and that cell is
/// the first interior visited under its key.
pub open spec fn is_winning_cell(
    plugins: LoadOrder,
    record: Record,
    p: int,
    i: int,
) -> bool {
    &&& cell_wins(plugins, p, i)
    &&& record == Record::Cell(
        Origin { plugin: p as usize, index: i as usize },
        stripped_cell(plugins[p]->0.cells@[i]),
    )
}

/// What plugin `p` gives among its first `upto` cells: each record is a
/// winning cell of `p`, and they stand in the order of the plugin.
proof fn lemma_emitted_cells(plugins: LoadOrder, p: int, upto: int)
    requires
        holdable(plugins),
        0 <= p < plugins.len(),
        plugins[p] is Some,
        0 <= upto <= plugins[p]->0.cells@.len(),
    ensures
        forall|n: int|
            0 <= n < emitted_cells(plugins, p, upto).len() ==> {
                let r = #[trigger] emitted_cells(plugins, p, upto)[n];
                &&& record_origin(r).plugin == p
                &&& 0 <= record_origin(r).index < upto
                &&& is_winning_cell(plugins, r, p, record_origin(r).index as int)
            },
        forall|n: int, m: int|
            0 <= n < m < emitted_cells(plugins, p, upto).len() ==> record_origin(
                #[trigger] emitted_cells(plugins, p, upto)[n],
            ).index < record_origin(#[trigger] emitted_cells(plugins, p, upto)[m]).index,
        forall|i: int|
            0 <= i < upto && #[trigger] cell_wins(plugins, p, i) ==> exists|n: int|
                0 <= n < emitted_cells(plugins, p, upto).len() && is_winning_cell(
                    plugins,
                    #[trigger] emitted_cells(plugins, p, upto)[n],
                    p,
                    i,
                ),
    decreases upto,
{
    if upto > 0 {
        lemma_emitted_cells(plugins, p, upto - 1);
        let before = emitted_cells(plugins, p, upto - 1);
        let now = emitted_cells(plugins, p, upto);
        if cell_wins(plugins, p, upto - 1) {
            assert(is_winning_cell(plugins, now[before.len() as int], p, upto - 1));
        }
        assert forall|i: int| 0 <= i < upto && #[trigger] cell_wins(plugins, p, i) implies exists|
            n: int,
        |
            0 <= n < now.len() && is_winning_cell(plugins, #[trigger] now[n], p, i) by {
            if i < upto - 1 {
                let n = choose|n: int|
                    0 <= n < before.len() && is_winning_cell(
                        plugins,
                        #[trigger] before[n],
                        p,
                        i,
                    );
                assert(now[n] == before[n]);
            } else {
                assert(is_winning_cell(plugins, now[before.len() as int], p, i));
            }
        }
    }
}

/// What the plugins from `from` upwards give where interiors lose their
/// sunlight: each record is a winning cell of one of them, they stand in
/// the order of the visit, and no winning cell is missing.
proof fn lemma_merged_cells(plugins: LoadOrder, config: LightConfig, from: int)
    requires
        config.disable_interior_sun,
        holdable(plugins),
        0 <= from <= plugins.len(),
    ensures
        forall|n: int|
            0 <= n < merged_cells(plugins, config, from).len() ==> {
                let r = #[trigger] merged_cells(plugins, config, from)[n];
                &&& from <= record_origin(r).plugin < plugins.len()
                &&& is_winning_cell(
                    plugins,
                    r,
                    record_origin(r).plugin as int,
                    record_origin(r).index as int,
                )
            },
        forall|n: int, m: int|
            0 <= n < m < merged_cells(plugins, config, from).len() ==> visited_before(
                record_origin(#[trigger] merged_cells(plugins, config, from)[n]).plugin as int,
                record_origin(merged_cells(plugins, config, from)[n]).index as int,
                record_origin(#[trigger] merged_cells(plugins, config, from)[m]).plugin as int,
                record_origin(merged_cells(plugins, config, from)[m]).index as int,
            ),
        forall|p: int, i: int|
            from <= p && #[trigger] cell_wins(plugins, p, i) ==> exists|n: int|
                0 <= n < merged_cells(plugins, config, from).len() && is_winning_cell(
                    plugins,
                    #[trigger] merged_cells(plugins, config, from)[n],
                    p,
                    i,
                ),
    decreases plugins.len() - from,
{
    if from < plugins.len() {
        lemma_merged_cells(plugins, config, from + 1);
        let above = merged_cells(plugins, config, from + 1);
        let here = plugin_cells(plugins, config, from);
        let all = merged_cells(plugins, config, from);
        assert(all == above + here);
        if plugins[from] is Some {
            lemma_emitted_cells(
                plugins,
                from,
                plugins[from]->0.cells@.len() as int,
            );
        }
        assert forall|n: int| 0 <= n < all.len() implies {
            let r = #[trigger] all[n];
            &&& from <= record_origin(r).plugin < plugins.len()
            &&& is_winning_cell(
                plugins,
                r,
                record_origin(r).plugin as int,
                record_origin(r).index as int,
            )
        } by {
            if n < above.len() {
                assert(all[n] == above[n]);
            } else {
                assert(all[n] == here[n - above.len()]);
            }
        }
        assert forall|n: int, m: int| 0 <= n < m < all.len() implies visited_before(
            record_origin(#[trigger] all[n]).plugin as int,
            record_origin(all[n]).index as int,
            record_origin(#[trigger] all[m]).plugin as int,
            record_origin(all[m]).index as int,
        ) by {
            if m < above.len() {
                assert(all[n] == above[n]);
                assert(all[m] == above[m]);
            } else if n < above.len() {
                assert(all[n] == above[n]);
                assert(all[m] == here[m - above.len()]);
            } else {
                assert(all[n] == here[n - above.len()]);
                assert(all[m] == here[m - above.len()]);
            }
        }
        assert forall|p: int, i: int| from <= p && #[trigger] cell_wins(plugins, p, i) implies exists|
            n: int,
        |
            0 <= n < all.len() && is_winning_cell(plugins, #[trigger] all[n], p, i) by {
            if p > from {
                let n = choose|n: int|
                    0 <= n < above.len() && is_winning_cell(
                        plugins,
                        #[trigger] above[n],
                        p,
                        i,
                    );
                assert(all[n] == above[n]);
            } else {
                let n = choose|n: int|
                    0 <= n < here.len() && is_winning_cell(
                        plugins,
                        #[trigger] here[n],
                        p,
                        i,
                    );
                assert(all[above.len() + n] == here[n]);
            }
        }
    }
}

/// The highest definition wins among cells too. Every cell of a merge is
/// the stripped form of one interior of the load order, and no interior of
/// that key is visited before that one.
pub proof fn lemma_surviving_cell_is_highest(
    plugins: Vec<Option<PluginFile>>,
    config: LightConfig,
    n: int,
)
    requires
        config.disable_interior_sun,
        0 <= n < merged_cells(plugins@, config, 0).len(),
    ensures
        ({
            let record = merged_cells(plugins@, config, 0)[n];
            let p = record_origin(record).plugin as int;
            let i = record_origin(record).index as int;
            &&& defines_interior(plugins@, p, i, record_key(record))
            &&& record == Record::Cell(
                record_origin(record),
                stripped_cell(plugins@[p]->0.cells@[i]),
            )
            &&& forall|q: int, j: int| #[trigger]
                defines_interior(plugins@, q, j, record_key(record)) ==> !visited_before(q, j, p, i)
        }),
{
    lemma_holdable(plugins);
    lemma_merged_cells(plugins@, config, 0);
    let record = merged_cells(plugins@, config, 0)[n];
    let p = record_origin(record).plugin as int;
    let i = record_origin(record).index as int;
    assert(is_winning_cell(plugins@, record, p, i));
    assert forall|q: int, j: int| #[trigger]
        defines_interior(plugins@, q, j, record_key(record)) implies !visited_before(q, j, p, i) by {
        if visited_before(q, j, p, i) {
            assert(interiors_claimed_before(plugins@, p, i).contains(record_key(record)));
        }
    }
}

/// A cell key is emitted at most once.
pub proof fn lemma_cell_emitted_once(
    plugins: Vec<Option<PluginFile>>,
    config: LightConfig,
    n: int,
    m: int,
)
    requires
        config.disable_interior_sun,
        0 <= n < merged_cells(plugins@, config, 0).len(),
        0 <= m < merged_cells(plugins@, config, 0).len(),
        record_key(merged_cells(plugins@, config, 0)[n]) == record_key(
            merged_cells(plugins@, config, 0)[m],
        ),
    ensures
        n == m,
{
    lemma_holdable(plugins);
    lemma_merged_cells(plugins@, config, 0);
    let all = merged_cells(plugins@, config, 0);
    if n != m {
        let (a, b) = if n < m {
            (n, m)
        } else {
            (m, n)
        };
        let first = all[a];
        let second = all[b];
        let k = record_key(second);
        assert(is_winning_cell(
            plugins@,
            first,
            record_origin(first).plugin as int,
            record_origin(first).index as int,
        ));
        assert(is_winning_cell(
            plugins@,
            second,
            record_origin(second).plugin as int,
            record_origin(second).index as int,
        ));
        assert(defines_interior(
            plugins@,
            record_origin(first).plugin as int,
            record_origin(first).index as int,
            k,
        ));
        assert(interiors_claimed_before(
            plugins@,
            record_origin(second).plugin as int,
            record_origin(second).index as int,
        ).contains(k));
    }
}

proof fn lemma_interior_key_emitted(plugins: LoadOrder, config: LightConfig, p: int, i: int)
    requires
        config.disable_interior_sun,
        holdable(plugins),
        defines_interior(plugins, p, i, cell_key(plugins[p]->0.cells@[i])),
    ensures
        exists|n: int|
            0 <= n < merged_cells(plugins, config, 0).len() && record_key(
                #[trigger] merged_cells(plugins, config, 0)[n],
            ) == cell_key(plugins[p]->0.cells@[i]),
    decreases plugins.len() - p, i,
{
    let k = cell_key(plugins[p]->0.cells@[i]);
    let all = merged_cells(plugins, config, 0);
    lemma_merged_cells(plugins, config, 0);
    if cell_wins(plugins, p, i) {
        let n = choose|n: int|
            0 <= n < all.len() && is_winning_cell(plugins, #[trigger] all[n], p, i);
        assert(record_key(all[n]) == k);
    } else {
        assert(interiors_claimed_before(plugins, p, i).contains(k));
        let (q, j) = choose|q: int, j: int|
            #[trigger] defines_interior(plugins, q, j, k) && (q > p || (q == p && j < i));
        lemma_interior_key_emitted(plugins, config, q, j);
    }
}

/// No interior is lost where interiors lose their sunlight: for every
/// interior of every plugin that was read, the merge holds a cell of that
/// key.
pub proof fn lemma_every_interior_key_emitted(
    plugins: Vec<Option<PluginFile>>,
    config: LightConfig,
    p: int,
    i: int,
)
    requires
        config.disable_interior_sun,
        0 <= p < plugins@.len(),
        plugins@[p] is Some,
        0 <= i < plugins@[p]->0.cells@.len(),
        plugins@[p]->0.cells@[i].interior,
    ensures
        exists|n: int|
            0 <= n < merged_cells(plugins@, config, 0).len() && record_key(
                #[trigger] merged_cells(plugins@, config, 0)[n],
            ) == cell_key(plugins@[p]->0.cells@[i]),
{
    lemma_holdable(plugins);
    lemma_interior_key_emitted(plugins@, config, p, i);
}

/// Where interiors keep their sunlight, a merge holds no cell.
pub proof fn lemma_no_cells_unless_stripping(
    plugins: LoadOrder,
    config: LightConfig,
    from: int,
)
    requires
        !config.disable_interior_sun,
    ensures
        merged_cells(plugins, config, from) == Seq::<Record>::empty(),
    decreases plugins.len() - from,
{
    if from < plugins.len() {
        lemma_no_cells_unless_stripping(plugins, config, from + 1);
        assert(merged_cells(plugins, config, from) =~= Seq::<Record>::empty());
    }
}

/// The places in the load order, from `from` upwards and in ascending
/// order, of the plugins that give a record.
pub open spec fn contributing(plugins: LoadOrder, config: LightConfig, from: int) -> Seq<int>
    decreases plugins.len() - from,
{
    if from >= plugins.len() || from < 0 {
        Seq::empty()
    } else {
        let above = contributing(plugins, config, from + 1);
        if contributes(plugins, config, from) {
            seq![from] + above
        } else {
            above
        }
    }
}

/// The master list names the plugins that gave a record, each once, the
/// lowest of the load order first, and no other plugin.
pub proof fn lemma_masters_are_contributors(plugins: LoadOrder, config: LightConfig, from: int)
    requires
        0 <= from <= plugins.len(),
    ensures
        master_list(plugins, config, from).len() == contributing(plugins, config, from).len(),
        forall|n: int|
            0 <= n < contributing(plugins, config, from).len() ==> {
                let p = #[trigger] contributing(plugins, config, from)[n];
                &&& from <= p < plugins.len()
                &&& plugins[p] is Some
                &&& contributes(plugins, config, p)
                &&& master_list(plugins, config, from)[n] == Master {
                    name: plugins[p]->0.name,
                    size: plugins[p]->0.size,
                }
            },
        forall|n: int, m: int|
            0 <= n < m < contributing(plugins, config, from).len() ==> #[trigger] contributing(
                plugins,
                config,
                from,
            )[n] < #[trigger] contributing(plugins, config, from)[m],
        forall|p: int|
            from <= p < plugins.len() && #[trigger] contributes(plugins, config, p)
                ==> contributing(plugins, config, from).contains(p),
    decreases plugins.len() - from,
{
    if from < plugins.len() {
        lemma_masters_are_contributors(plugins, config, from + 1);
        let above = contributing(plugins, config, from + 1);
        let all = contributing(plugins, config, from);
        if contributes(plugins, config, from) {
            assert(all == seq![from] + above);
            assert(all[0] == from);
            assert forall|n: int| 1 <= n < all.len() implies #[trigger] all[n] == above[n - 1] by {}
            assert forall|p: int|
                from <= p < plugins.len() && #[trigger] contributes(
                    plugins,
                    config,
                    p,
                ) implies all.contains(p) by {
                if p > from {
                    let n = choose|n: int| 0 <= n < above.len() && above[n] == p;
                    assert(all[n + 1] == p);
                }
            }
        }
    }
}

/// A record is emitted at most once. Two records of one kind that stand
/// in different places of a generated plugin have different keys. (A light
/// and a cell may share a key: the two kinds are claimed apart.)
pub proof fn lemma_record_emitted_once(
    plugins: Vec<Option<PluginFile>>,
    config: LightConfig,
    out: OutputModel,
    n: int,
    m: int,
)
    requires
        merged(plugins@, config) == Ok::<OutputModel, MergeError>(out),
        0 <= n < out.records.len(),
        0 <= m < out.records.len(),
        out.records[n] is Light <==> out.records[m] is Light,
        record_key(out.records[n]) == record_key(out.records[m]),
    ensures
        n == m,
{
    let lights = merged_lights(plugins@, config, 0);
    let cells = merged_cells(plugins@, config, 0);
    assert(out.records == lights + cells);
    lemma_holdable(plugins);
    lemma_merged_lights(plugins@, config, 0);
    if config.disable_interior_sun {
        lemma_merged_cells(plugins@, config, 0);
    } else {
        lemma_no_cells_unless_stripping(plugins@, config, 0);
    }
    if n < lights.len() {
        assert(out.records[n] == lights[n]);
        assert(lights[n] is Light);
        if m < lights.len() {
            assert(out.records[m] == lights[m]);
            lemma_light_emitted_once(plugins, config, n, m);
        } else {
            assert(out.records[m] == cells[m - lights.len()]);
            assert(cells[m - lights.len()] is Cell);
        }
    } else {
        assert(out.records[n] == cells[n - lights.len()]);
        assert(cells[n - lights.len()] is Cell);
        if m < lights.len() {
            assert(out.records[m] == lights[m]);
            assert(lights[m] is Light);
        } else {
            assert(out.records[m] == cells[m - lights.len()]);
            lemma_cell_emitted_once(plugins, config, n - lights.len(), m - lights.len());
        }
    }
}

/// The records stand by kind: in a generated plugin every light comes
/// before every cell.
pub proof fn lemma_lights_precede_cells(
    plugins: Vec<Option<PluginFile>>,
    config: LightConfig,
    out: OutputModel,
    n: int,
    m: int,
)
    requires
        merged(plugins@, config) == Ok::<OutputModel, MergeError>(out),
        0 <= n < m < out.records.len(),
        out.records[m] is Light,
    ensures
        out.records[n] is Light,
{
    let lights = merged_lights(plugins@, config, 0);
    let cells = merged_cells(plugins@, config, 0);
    assert(out.records == lights + cells);
    lemma_holdable(plugins);
    if config.disable_interior_sun {
        lemma_merged_cells(plugins@, config, 0);
    } else {
        lemma_no_cells_unless_stripping(plugins@, config, 0);
    }
    lemma_merged_lights(plugins@, config, 0);
    if m >= lights.len() {
        assert(out.records[m] == cells[m - lights.len()]);
        assert(cells[m - lights.len()] is Cell);
    } else {
        assert(out.records[n] == lights[n]);
        assert(lights[n] is Light);
    }
}

/// The same load order and the same settings give the same plugin.
pub proof fn lemma_merge_is_repeatable(
    plugins: Vec<Option<PluginFile>>,
    config: LightConfig,
    first: OutputPlugin,
    second: OutputPlugin,
)
    requires
        merged(plugins@, config) == Ok::<OutputModel, MergeError>(first@),
        merged(plugins@, config) == Ok::<OutputModel, MergeError>(second@),
    ensures
        first@ == second@,
{
}

} // verus!
