use s3lightfixes::binary32::Binary32;
use s3lightfixes::light_config::LightConfig;
use s3lightfixes::merge::{merge_load_order, MergeError, Origin, OutputPlugin, Record};
use s3lightfixes::record::{
    Atmosphere, CellRecord, Hsv, LightColor, LightRecord, PluginFile, Rgba, LIGHT_FLICKER,
    LIGHT_NEGATIVE,
};
use s3lightfixes::transform::adjust_light;

fn number(x: f32) -> Binary32 {
    Binary32::from_bits(x.to_bits())
}

fn warm(id: &str, radius: u32) -> LightRecord {
    LightRecord {
        id: id.to_string(),
        color: Hsv {
            hue: number(30.0),
            saturation: number(0.5),
            value: number(0.9),
        },
        radius,
        flags: LIGHT_FLICKER,
    }
}

fn interior(id: &str, references: usize) -> CellRecord {
    CellRecord {
        id: id.to_string(),
        interior: true,
        references,
        atmosphere: Some(Atmosphere {
            ambient_color: Rgba { red: 10, green: 20, blue: 30, alpha: 0 },
            sunlight_color: Rgba { red: 240, green: 230, blue: 220, alpha: 0 },
            fog_color: Rgba { red: 1, green: 1, blue: 1, alpha: 0 },
            fog_density: number(0.5),
        }),
    }
}

fn exterior(id: &str) -> CellRecord {
    CellRecord {
        id: id.to_string(),
        interior: false,
        references: 7,
        atmosphere: None,
    }
}

fn plugin(name: &str, size: u64, cells: Vec<CellRecord>, lights: Vec<LightRecord>) -> Option<PluginFile> {
    Some(PluginFile {
        name: name.to_string(),
        size,
        cells,
        lights,
    })
}

fn classic() -> LightConfig {
    let mut config = LightConfig::default();
    config.disable_interior_sun = true;
    config
}

fn master_names(out: &OutputPlugin) -> Vec<(String, u64)> {
    out.header
        .masters
        .iter()
        .map(|master| (master.name.clone(), master.size))
        .collect()
}

fn light_at(out: &OutputPlugin, n: usize) -> (Origin, String, u32) {
    match &out.records[n] {
        Record::Light(origin, light) => (*origin, light.id.clone(), light.radius),
        Record::Cell(..) => panic!("record {n} is a cell"),
    }
}

fn cell_at(out: &OutputPlugin, n: usize) -> (Origin, CellRecord) {
    match &out.records[n] {
        Record::Cell(origin, cell) => (*origin, cell.clone()),
        Record::Light(..) => panic!("record {n} is a light"),
    }
}

#[test]
fn empty_load_order_is_refused() {
    let config = LightConfig::default();
    let result = merge_load_order(&Vec::new(), &config);
    assert_eq!(result.err(), Some(MergeError::NoPlugins));
}

#[test]
fn load_order_without_records_has_no_masters() {
    let config = LightConfig::default();
    let plugins = vec![None, plugin("Empty.esp", 10, vec![], vec![]), None];
    assert_eq!(
        merge_load_order(&plugins, &config).err(),
        Some(MergeError::NoMasters)
    );
    let skipped: Vec<Option<PluginFile>> = vec![None];
    assert_eq!(
        merge_load_order(&skipped, &config).err(),
        Some(MergeError::NoMasters)
    );
}

#[test]
fn cells_alone_give_no_masters_unless_interiors_are_stripped() {
    let plugins = vec![plugin("Cells.esp", 10, vec![interior("cave", 3)], vec![])];
    assert_eq!(
        merge_load_order(&plugins, &LightConfig::default()).err(),
        Some(MergeError::NoMasters)
    );
    let out = merge_load_order(&plugins, &classic()).unwrap();
    assert_eq!(master_names(&out), vec![("Cells.esp".to_string(), 10)]);
}

#[test]
fn highest_plugin_wins_and_masters_ascend() {
    let config = LightConfig::default();
    let plugins = vec![
        plugin("A.esm", 1000, vec![], vec![warm("torch_01", 100)]),
        plugin("B.esp", 2000, vec![], vec![warm("torch_02", 200)]),
        plugin("C.esp", 3000, vec![], vec![warm("torch_01", 300)]),
    ];
    let out = merge_load_order(&plugins, &config).unwrap();
    // A gives no record: its only light is defined again in C.
    assert_eq!(
        master_names(&out),
        vec![("B.esp".to_string(), 2000), ("C.esp".to_string(), 3000)]
    );
    assert_eq!(out.records.len(), 2);
    assert_eq!(out.header.num_objects, 2);
    let (origin, id, radius) = light_at(&out, 0);
    assert_eq!(origin, Origin { plugin: 2, index: 0 });
    assert_eq!(id, "torch_01");
    assert_eq!(radius, 360);
    let (origin, id, radius) = light_at(&out, 1);
    assert_eq!(origin, Origin { plugin: 1, index: 0 });
    assert_eq!(id, "torch_02");
    assert_eq!(radius, 240);
}

#[test]
fn masters_keep_the_order_of_the_load_order() {
    let config = LightConfig::default();
    let plugins = vec![
        plugin("A.esm", 1000, vec![], vec![warm("torch_01", 100), warm("lamp_a", 50)]),
        None,
        plugin("C.esp", 3000, vec![], vec![warm("torch_01", 300)]),
    ];
    let out = merge_load_order(&plugins, &config).unwrap();
    assert_eq!(
        master_names(&out),
        vec![("A.esm".to_string(), 1000), ("C.esp".to_string(), 3000)]
    );
    assert_eq!(out.records.len(), 2);
    assert_eq!(light_at(&out, 0), (Origin { plugin: 2, index: 0 }, "torch_01".to_string(), 360));
    assert_eq!(light_at(&out, 1), (Origin { plugin: 0, index: 1 }, "lamp_a".to_string(), 60));
}

#[test]
fn identifiers_that_differ_in_case_are_one_object() {
    let config = LightConfig::default();
    let plugins = vec![
        plugin("Low.esp", 1, vec![], vec![warm("TORCH_01", 10), warm("Torch_01", 20)]),
        plugin("Mid.esp", 2, vec![], vec![warm("torch_01", 30)]),
        plugin("High.esp", 3, vec![], vec![warm("Torch_01", 40), warm("tOrCh_01", 50)]),
    ];
    let out = merge_load_order(&plugins, &config).unwrap();
    assert_eq!(out.records.len(), 1);
    let (origin, id, radius) = light_at(&out, 0);
    assert_eq!(origin, Origin { plugin: 2, index: 0 });
    assert_eq!(id, "Torch_01");
    assert_eq!(radius, 48);
    assert_eq!(master_names(&out), vec![("High.esp".to_string(), 3)]);
}

#[test]
fn lower_definitions_do_not_change_the_result() {
    let config = LightConfig::default();
    let high = plugin("High.esp", 3, vec![], vec![warm("torch_01", 40)]);
    let with_low = vec![
        plugin("Low.esp", 1, vec![], vec![warm("torch_01", 999)]),
        high.clone(),
    ];
    let without_low = vec![plugin("Low.esp", 1, vec![], vec![]), high];
    let a = merge_load_order(&with_low, &config).unwrap();
    let b = merge_load_order(&without_low, &config).unwrap();
    assert_eq!(format!("{a:?}"), format!("{b:?}"));
}

#[test]
fn surviving_light_is_the_adjusted_source() {
    let config = LightConfig::default();
    let source = LightRecord {
        id: "shade".to_string(),
        color: Hsv {
            hue: number(200.0),
            saturation: number(1.0),
            value: number(1.0),
        },
        radius: 77,
        flags: LIGHT_NEGATIVE,
    };
    let plugins = vec![plugin("Only.esp", 5, vec![], vec![warm("torch", 8), source.clone()])];
    let out = merge_load_order(&plugins, &config).unwrap();
    assert_eq!(out.records.len(), 2);
    match &out.records[1] {
        Record::Light(origin, light) => {
            assert_eq!(*origin, Origin { plugin: 0, index: 1 });
            let expected = adjust_light(&source, &config);
            assert_eq!(light.id, expected.id);
            assert_eq!(light.color, LightColor::Black);
            assert_eq!(light.radius, 0);
            assert_eq!(light.flags, 0);
        }
        Record::Cell(..) => panic!("a cell"),
    }
}

#[test]
fn interiors_are_stripped_in_classic_mode() {
    let plugins = vec![
        plugin(
            "Low.esp",
            11,
            vec![interior("Cave", 5), exterior("Wilderness"), interior("Tower", 2)],
            vec![warm("torch_01", 100)],
        ),
        plugin("High.esp", 22, vec![exterior("cave"), interior("CAVE", 9)], vec![]),
    ];
    let out = merge_load_order(&plugins, &classic()).unwrap();
    assert_eq!(out.header.num_objects, 3);
    assert_eq!(out.records.len(), 3);
    // Lights come first, then cells; within a kind, the order of the visit.
    assert_eq!(light_at(&out, 0).0, Origin { plugin: 0, index: 0 });
    let (origin, cell) = cell_at(&out, 1);
    assert_eq!(origin, Origin { plugin: 1, index: 1 });
    assert_eq!(cell.id, "CAVE");
    assert_eq!(cell.references, 0);
    assert_eq!(
        cell.atmosphere.unwrap().sunlight_color,
        Rgba { red: 0, green: 0, blue: 0, alpha: 0 }
    );
    assert_eq!(
        cell.atmosphere.unwrap().ambient_color,
        Rgba { red: 10, green: 20, blue: 30, alpha: 0 }
    );
    let (origin, cell) = cell_at(&out, 2);
    assert_eq!(origin, Origin { plugin: 0, index: 2 });
    assert_eq!(cell.id, "Tower");
    assert_eq!(
        master_names(&out),
        vec![("Low.esp".to_string(), 11), ("High.esp".to_string(), 22)]
    );
}

#[test]
fn an_exterior_claims_nothing() {
    let plugins = vec![
        plugin("Low.esp", 11, vec![interior("Cave", 5)], vec![]),
        plugin("High.esp", 22, vec![exterior("cave")], vec![warm("x", 1)]),
    ];
    let out = merge_load_order(&plugins, &classic()).unwrap();
    assert_eq!(out.records.len(), 2);
    assert_eq!(cell_at(&out, 1).0, Origin { plugin: 0, index: 0 });
}

#[test]
fn cells_are_left_alone_outside_classic_mode() {
    let plugins = vec![plugin(
        "Low.esp",
        11,
        vec![interior("Cave", 5)],
        vec![warm("torch_01", 100)],
    )];
    let out = merge_load_order(&plugins, &LightConfig::default()).unwrap();
    assert_eq!(out.records.len(), 1);
    assert_eq!(out.header.num_objects, 1);
    assert!(matches!(out.records[0], Record::Light(..)));
}

#[test]
fn a_light_and_a_cell_may_share_an_identifier() {
    let plugins = vec![plugin(
        "Both.esp",
        11,
        vec![interior("shared", 5)],
        vec![warm("Shared", 100)],
    )];
    let out = merge_load_order(&plugins, &classic()).unwrap();
    assert_eq!(out.records.len(), 2);
    assert!(matches!(out.records[0], Record::Light(..)));
    assert!(matches!(out.records[1], Record::Cell(..)));
}

#[test]
fn header_is_filled_in() {
    let plugins = vec![plugin("A.esm", 1234567890123, vec![], vec![warm("torch_01", 100)])];
    let out = merge_load_order(&plugins, &LightConfig::default()).unwrap();
    assert_eq!(out.header.version.to_bits(), 1.3f32.to_bits());
    assert_eq!(out.header.author, "S3");
    assert_eq!(out.header.description, "Plugin generated by s3-lightfixes");
    assert_eq!(out.header.num_objects, 1);
    assert_eq!(master_names(&out), vec![("A.esm".to_string(), 1234567890123)]);
}

#[test]
fn the_same_input_gives_the_same_plugin() {
    let plugins = vec![
        plugin(
            "Low.esp",
            11,
            vec![interior("Cave", 5), interior("Tower", 2)],
            vec![warm("torch_01", 100), warm("torch_02", 17)],
        ),
        None,
        plugin("High.esp", 22, vec![interior("CAVE", 9)], vec![warm("TORCH_02", 3)]),
    ];
    let first = merge_load_order(&plugins, &classic()).unwrap();
    let second = merge_load_order(&plugins.clone(), &classic()).unwrap();
    assert_eq!(format!("{first:?}"), format!("{second:?}"));
    assert_eq!(first.records.len(), 4);
}

#[test]
fn the_input_is_not_changed() {
    let plugins = vec![plugin(
        "Low.esp",
        11,
        vec![interior("Cave", 5)],
        vec![warm("torch_01", 100)],
    )];
    let before = format!("{plugins:?}");
    let _ = merge_load_order(&plugins, &classic()).unwrap();
    assert_eq!(format!("{plugins:?}"), before);
}
