use s3lightfixes::merge::MergeError;
use s3lightfixes::overlay::walk_load_order;
use s3lightfixes::{is_fixable_plugin, PLUGIN_NAME};
use vfstool_lib::VFS;

fn overlay(files: &[(&str, &str)]) -> VFS {
    let mut vfs = VFS::new();
    for (key, path) in files {
        vfs.set_winner_loose_file(*key, *path);
    }
    vfs
}

fn names(list: &[&str]) -> Vec<String> {
    list.iter().map(|name| name.to_string()).collect()
}

#[test]
fn plugin_extensions_are_accepted_in_any_case() {
    assert!(is_fixable_plugin("/data/Morrowind.esm", true));
    assert!(is_fixable_plugin("/data/Patch.ESP", true));
    assert!(is_fixable_plugin("/data/mod.OmwAddon", true));
    assert!(is_fixable_plugin("/data/base.omwgame", true));
    assert!(is_fixable_plugin("a.esp", true));
    assert!(is_fixable_plugin("C:\\Games\\Data Files\\Tribunal.esm", true));
}

#[test]
fn other_files_are_not_plugins() {
    assert!(!is_fixable_plugin("/data/readme.txt", true));
    assert!(!is_fixable_plugin("/data/Morrowind", true));
    assert!(!is_fixable_plugin("/data/Morrowind.esm.bak", true));
    assert!(!is_fixable_plugin("/data/Morrowind.", true));
    assert!(!is_fixable_plugin("/data/.esp", true));
    assert!(!is_fixable_plugin(".esm", true));
    assert!(!is_fixable_plugin("esp", true));
    assert!(!is_fixable_plugin("", true));
    assert!(!is_fixable_plugin("/data/archive.bsa", true));
    assert!(!is_fixable_plugin("/data/xesp", true));
    assert!(!is_fixable_plugin("/data.esp/file", true));
}

#[test]
fn a_missing_file_is_not_fixable() {
    assert!(!is_fixable_plugin("/data/Morrowind.esm", false));
}

#[test]
fn the_generated_plugin_is_never_an_input() {
    assert_eq!(PLUGIN_NAME, "S3LightFixes.omwaddon");
    assert!(!is_fixable_plugin("/data/S3LightFixes.omwaddon", true));
    assert!(!is_fixable_plugin("S3LightFixes.omwaddon", true));
    assert!(!is_fixable_plugin("C:\\out\\S3LightFixes.omwaddon", true));
    assert!(!is_fixable_plugin("/a.esp/S3LightFixes.omwaddon", true));
}

#[test]
fn a_path_that_only_holds_the_name_is_an_input() {
    assert!(is_fixable_plugin("S3LightFixes.omwaddon/a.esp", true));
    assert!(is_fixable_plugin("/mods/S3LightFixes.omwaddon/Patch.esm", true));
    assert!(is_fixable_plugin("/old/S3LightFixes.omwaddon.esp", true));
    assert!(is_fixable_plugin("/old/MyS3LightFixes.omwaddon", true));
    assert!(is_fixable_plugin("/data/s3lightfixes.omwaddon", true));
    assert!(is_fixable_plugin("/data/S3LightFixe.omwaddon", true));
    assert!(!is_fixable_plugin("/mods/S3LightFixes.omwaddon/notes.txt", true));
    assert!(!is_fixable_plugin("S3LightFixes.omwaddon/a.esp", false));
}

#[test]
fn a_path_that_ends_in_a_separator_has_no_file_name() {
    assert!(!is_fixable_plugin("/data/a.esp/", true));
    assert!(!is_fixable_plugin("/data/a.esp\\", true));
}

#[test]
fn empty_content_list_is_refused_at_once() {
    let vfs = overlay(&[("morrowind.esm", "/data/Morrowind.esm")]);
    let result = walk_load_order(&vfs, &Vec::new());
    assert_eq!(result.err(), Some(MergeError::NoPlugins));
}

#[test]
fn walk_goes_from_the_last_entry_to_the_first() {
    let vfs = overlay(&[
        ("morrowind.esm", "/base/Data Files/Morrowind.esm"),
        ("tribunal.esm", "/base/Data Files/Tribunal.esm"),
        ("patch.esp", "/mods/patch/Patch.ESP"),
    ]);
    let content = names(&["Morrowind.esm", "Tribunal.esm", "Patch.esp"]);
    let found = walk_load_order(&vfs, &content).unwrap();
    let listed: Vec<(usize, String)> = found
        .iter()
        .map(|candidate| (candidate.entry, candidate.path.clone()))
        .collect();
    assert_eq!(
        listed,
        vec![
            (2, "/mods/patch/Patch.ESP".to_string()),
            (1, "/base/Data Files/Tribunal.esm".to_string()),
            (0, "/base/Data Files/Morrowind.esm".to_string()),
        ]
    );
}

#[test]
fn walk_passes_over_what_cannot_be_read_as_a_plugin() {
    let vfs = overlay(&[
        ("morrowind.esm", "/base/Morrowind.esm"),
        ("s3lightfixes.omwaddon", "/out/S3LightFixes.omwaddon"),
        ("notes.txt", "/mods/notes.txt"),
        ("late.omwaddon", "/mods/Late.omwaddon"),
    ]);
    let content = names(&[
        "Morrowind.esm",
        "Missing.esp",
        "S3LightFixes.omwaddon",
        "notes.txt",
        "LATE.OMWADDON",
    ]);
    let found = walk_load_order(&vfs, &content).unwrap();
    let listed: Vec<(usize, String)> = found
        .iter()
        .map(|candidate| (candidate.entry, candidate.path.clone()))
        .collect();
    assert_eq!(
        listed,
        vec![
            (4, "/mods/Late.omwaddon".to_string()),
            (0, "/base/Morrowind.esm".to_string()),
        ]
    );
}

#[test]
fn walk_of_unknown_names_finds_nothing() {
    let vfs = overlay(&[]);
    let found = walk_load_order(&vfs, &names(&["A.esp", "B.esp"])).unwrap();
    assert!(found.is_empty());
}

#[test]
fn the_same_name_resolves_the_same_way_each_time() {
    let vfs = overlay(&[("a.esp", "/one/A.esp")]);
    let content = names(&["A.esp", "a.ESP", "A.esp"]);
    let found = walk_load_order(&vfs, &content).unwrap();
    assert_eq!(found.len(), 3);
    for candidate in found.iter() {
        assert_eq!(candidate.path, "/one/A.esp");
    }
}

#[test]
fn the_later_winner_replaces_the_earlier() {
    let mut vfs = overlay(&[("a.esp", "/low/A.esp")]);
    vfs.set_winner_loose_file("A.ESP", "/high/a.esp");
    let found = walk_load_order(&vfs, &names(&["A.esp"])).unwrap();
    assert_eq!(found.len(), 1);
    assert_eq!(found[0].path, "/high/a.esp");
    assert_eq!(found[0].entry, 0);
}

#[test]
fn names_are_looked_up_without_regard_to_case_and_slashes() {
    let vfs = overlay(&[("sub/a.esp", "/data/Sub/A.esp")]);
    let content = names(&[
        "sub/a.esp",
        "SUB/A.ESP",
        "Sub\\a.esp",
        "/sub/a.esp",
        "sub//a.esp",
        "\\\\Sub\\\\A.Esp",
        "sub/b.esp",
        "suba.esp",
        "sub/a.esp/",
    ]);
    let found = walk_load_order(&vfs, &content).unwrap();
    let entries: Vec<usize> = found.iter().map(|candidate| candidate.entry).collect();
    assert_eq!(entries, vec![5, 4, 3, 2, 1, 0]);
    for candidate in found.iter() {
        assert_eq!(candidate.path, "/data/Sub/A.esp");
    }
}
