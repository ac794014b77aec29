//! From content entries to the files to read.
//!
//! The overlay decides which file stands for a name: where several data
//! directories hold a file of one name, the directory that comes last wins.
//! The walk goes through the content entries from the last to the first
//! and keeps those whose file may be taken for a plugin to fix.

use crate::key::{fold_byte, lower_byte, lowered};
use crate::merge::MergeError;
use vfstool_lib::VFS;
use vstd::prelude::*;
use vstd::utf8::encode_utf8;

verus! {

/// The name of the plugin that a run writes. A file of this name is never
/// read.
pub const PLUGIN_NAME: &'static str = "S3LightFixes.omwaddon";

#[verifier::external_type_specification]
#[verifier::external_body]
pub struct ExVfs(VFS);

/// What an overlay holds: under each key, the path of the file that wins
/// it, as text.
pub uninterp spec fn overlay_files(vfs: VFS) -> Map<Seq<u8>, Seq<char>>;

/// One byte as a key spells it: an ASCII capital becomes the small letter,
/// a backslash becomes a slash.
pub open spec fn key_byte(b: u8) -> u8 {
    if b == 0x5C {
        0x2F
    } else {
        lower_byte(b)
    }
}

/// Whether byte `at` of a path has a place in the key: every byte has but
/// a separator at the start and a separator that follows another.
pub open spec fn in_key(path: Seq<u8>, at: int) -> bool {
    !(key_byte(path[at]) == 0x2F && (at == 0 || key_byte(path[at - 1]) == 0x2F))
}

/// The key of the first `upto` bytes of a path: the bytes that have a
/// place in it, each as a key spells it.
pub open spec fn folded_key(path: Seq<u8>, upto: int) -> Seq<u8>
    decreases upto,
{
    if upto <= 0 {
        Seq::empty()
    } else if in_key(path, upto - 1) {
        folded_key(path, upto - 1).push(key_byte(path[upto - 1]))
    } else {
        folded_key(path, upto - 1)
    }
}

/// The key under which an overlay looks a name up: the name in lower
/// case, with slashes for backslashes, without separators at its start and
/// with one separator where several follow each other.
pub open spec fn overlay_key(name: Seq<char>) -> Seq<u8> {
    folded_key(encode_utf8(name), encode_utf8(name).len() as int)
}

/// The path of the file that stands for `name`, if the overlay holds one.
pub open spec fn resolved(vfs: VFS, name: Seq<char>) -> Option<Seq<char>> {
    if overlay_files(vfs).dom().contains(overlay_key(name)) {
        Some(overlay_files(vfs)[overlay_key(name)])
    } else {
        None
    }
}

/// `VFS::get_file` with a name as text, and `VfsFile::path` of what it
/// finds. The overlay folds the name to a key, as `overlay_key` says, and
/// looks the key up among the files it holds. The contract says that the
/// file found is the one held under that key, and that none is found where
/// none is held; which files an overlay holds it leaves to `overlay_files`.
#[verifier::external_body]
fn lookup(vfs: &VFS, name: &str) -> (path: Option<String>)
    ensures
        path matches Some(p) ==> overlay_files(*vfs).dom().contains(overlay_key(name@))
            && overlay_files(*vfs)[overlay_key(name@)] == p@,
        path is None ==> !overlay_files(*vfs).dom().contains(overlay_key(name@)),
{
    match vfs.get_file(name) {
        Some(file) => Some(file.path().to_string_lossy().into_owned()),
        None => None,
    }
}

pub open spec fn is_separator(b: u8) -> bool {
    b == 0x2F || b == 0x5C
}

/// Where the last component begins among the first `upto` bytes of a
/// path: behind the last separator, or at 0 where there is none.
pub open spec fn name_start(path: Seq<u8>, upto: int) -> int
    decreases upto,
{
    if upto <= 0 {
        0
    } else if is_separator(path[upto - 1]) {
        upto
    } else {
        name_start(path, upto - 1)
    }
}

/// The last component of a path: what follows its last separator. Both `/`
/// and `\` separate, on every platform, and a path that ends in a
/// separator has an empty last component; in both `std::path::Path` does
/// otherwise, which takes `\` for a separator on some platforms only and
/// passes over a separator at the end.
pub open spec fn file_name(path: Seq<u8>) -> Seq<u8> {
    path.subrange(name_start(path, path.len() as int), path.len() as int)
}

/// Whether the last component of the path ends in a dot and `extension`,
/// in any letter case, with something before the dot. `extension` is in
/// lower case and holds neither a dot nor a separator. The last component
/// is that of `file_name`.
pub open spec fn has_extension(path: Seq<u8>, extension: Seq<u8>) -> bool {
    let dot = path.len() - extension.len() - 1;
    &&& dot >= 1
    &&& path[dot] == 0x2E
    &&& !is_separator(path[dot - 1])
    &&& lowered(path.subrange(dot + 1, path.len() as int)) == extension
}

/// Whether the path ends in one of the extensions of a plugin.
pub open spec fn has_plugin_extension(path: Seq<u8>) -> bool {
    ||| has_extension(path, encode_utf8("esp"@))
    ||| has_extension(path, encode_utf8("esm"@))
    ||| has_extension(path, encode_utf8("omwaddon"@))
    ||| has_extension(path, encode_utf8("omwgame"@))
}

/// Whether a file may be read as a plugin to fix: it exists, it is not the
/// plugin that a run writes, which is the file whose name is `PLUGIN_NAME`
/// byte for byte, and it has the extension of a plugin.
pub open spec fn fixable(path: Seq<char>, exists: bool) -> bool {
    &&& exists
    &&& file_name(encode_utf8(path)) != encode_utf8(PLUGIN_NAME@)
    &&& has_plugin_extension(encode_utf8(path))
}

/// Names that differ only in the case of their ASCII letters, or in the
/// kind of slash, have one key, and so resolve alike in every overlay.
pub proof fn lemma_key_ignores_case(vfs: VFS, a: Seq<char>, b: Seq<char>)
    requires
        encode_utf8(a).len() == encode_utf8(b).len(),
        forall|i: int|
            0 <= i < encode_utf8(a).len() ==> key_byte(#[trigger] encode_utf8(a)[i]) == key_byte(
                encode_utf8(b)[i],
            ),
    ensures
        overlay_key(a) == overlay_key(b),
        resolved(vfs, a) == resolved(vfs, b),
{
    lemma_folded_key_agrees(encode_utf8(a), encode_utf8(b), encode_utf8(a).len() as int);
}

proof fn lemma_folded_key_agrees(x: Seq<u8>, y: Seq<u8>, upto: int)
    requires
        x.len() == y.len(),
        upto <= x.len(),
        forall|i: int| 0 <= i < x.len() ==> key_byte(#[trigger] x[i]) == key_byte(y[i]),
    ensures
        folded_key(x, upto) == folded_key(y, upto),
    decreases upto,
{
    if upto > 0 {
        lemma_folded_key_agrees(x, y, upto - 1);
        assert(key_byte(x[upto - 1]) == key_byte(y[upto - 1]));
        if upto - 1 > 0 {
            assert(key_byte(x[upto - 2]) == key_byte(y[upto - 2]));
        }
    }
}

/// Whether the last component of `path` is `name`.
fn slice_is_named(path: &[u8], name: &[u8]) -> (same: bool)
    ensures
        same == (file_name(path@) == name@),
{
    let mut start: usize = path.len();
    while start > 0 && path[start - 1] != 0x2F && path[start - 1] != 0x5C
        invariant
            start <= path.len(),
            name_start(path@, path@.len() as int) == name_start(path@, start as int),
        decreases start,
    {
        start = start - 1;
    }
    let ghost last = file_name(path@);
    assert(last == path@.subrange(start as int, path@.len() as int));
    if path.len() - start != name.len() {
        return false;
    }
    let mut i: usize = 0;
    while i < name.len()
        invariant
            start <= path.len(),
            path.len() - start == name.len(),
            i <= name.len(),
            last == file_name(path@),
            last == path@.subrange(start as int, path@.len() as int),
            forall|j: int| 0 <= j < i ==> last[j] == name@[j],
        decreases name.len() - i,
    {
        if path[start + i] != name[i] {
            assert(last[i as int] != name@[i as int]);
            return false;
        }
        i = i + 1;
    }
    assert(last =~= name@);
    true
}

fn slice_has_extension(path: &[u8], extension: &[u8]) -> (found: bool)
    ensures
        found == has_extension(path@, extension@),
{
    if path.len() < 2 || path.len() - 2 < extension.len() {
        return false;
    }
    let dot: usize = path.len() - extension.len() - 1;
    if path[dot] != 0x2E || path[dot - 1] == 0x2F || path[dot - 1] == 0x5C {
        return false;
    }
    let ghost tail = path@.subrange(dot + 1, path@.len() as int);
    let mut i: usize = 0;
    while i < extension.len()
        invariant
            dot == path.len() - extension.len() - 1,
            i <= extension.len(),
            tail == path@.subrange(dot + 1, path@.len() as int),
            forall|j: int| 0 <= j < i ==> lower_byte(tail[j]) == extension@[j],
        decreases extension.len() - i,
    {
        if fold_byte(path[dot + 1 + i]) != extension[i] {
            assert(lowered(tail)[i as int] != extension@[i as int]);
            return false;
        }
        i = i + 1;
    }
    assert(lowered(tail) =~= extension@);
    true
}

/// Whether a file may be read as a plugin to fix. `exists` says whether
/// there is a file at the path.
pub fn is_fixable_plugin(plug_path: &str, exists: bool) -> (result: bool)
    ensures
        result == fixable(plug_path@, exists),
{
    if !exists {
        return false;
    }
    let path = plug_path.as_bytes();
    if slice_is_named(path, PLUGIN_NAME.as_bytes()) {
        return false;
    }
    slice_has_extension(path, "esp".as_bytes()) || slice_has_extension(path, "esm".as_bytes())
        || slice_has_extension(path, "omwaddon".as_bytes()) || slice_has_extension(
        path,
        "omwgame".as_bytes(),
    )
}

/// A content entry whose file is to be read.
#[derive(Clone, Debug)]
pub struct Candidate {
    /// The place of the entry in the load order.
    pub entry: usize,
    /// The path of its file.
    pub path: String,
}

/// Whether the overlay holds a file for entry `at` that may be a plugin
/// to fix.
pub open spec fn is_candidate(vfs: VFS, content: Seq<String>, at: int) -> bool {
    &&& 0 <= at < content.len()
    &&& resolved(vfs, content[at]@) is Some
    &&& fixable(resolved(vfs, content[at]@)->0, true)
}

/// The entries from `from` upwards whose file is to be read, with its
/// path, the last of the load order first.
pub open spec fn walk(vfs: VFS, content: Seq<String>, from: int) -> Seq<(int, Seq<char>)>
    decreases content.len() - from,
{
    if from >= content.len() || from < 0 {
        Seq::empty()
    } else {
        let above = walk(vfs, content, from + 1);
        if is_candidate(vfs, content, from) {
            above.push((from, resolved(vfs, content[from]@)->0))
        } else {
            above
        }
    }
}

/// Refuses an empty load order. This is the first thing a run does, before
/// any file is touched.
pub fn require_plugins(content_files: &Vec<String>) -> (result: Result<(), MergeError>)
    ensures
        content_files@.len() == 0 <==> result is Err,
        result matches Err(e) ==> e == MergeError::NoPlugins,
{
    if content_files.len() == 0 {
        Err(MergeError::NoPlugins)
    } else {
        Ok(())
    }
}

/// Goes through the content entries from the last to the first and lists
/// those to read. An entry that the overlay holds no file for is passed
/// over, and so is one whose file cannot be a plugin to fix. An empty load
/// order is an error, known before any file is touched.
pub fn walk_load_order(vfs: &VFS, content_files: &Vec<String>) -> (result: Result<
    Vec<Candidate>,
    MergeError,
>)
    ensures
        content_files@.len() == 0 <==> result is Err,
        result matches Err(e) ==> e == MergeError::NoPlugins,
        result matches Ok(found) ==> {
            &&& found@.len() == walk(*vfs, content_files@, 0).len()
            &&& forall|n: int|
                0 <= n < found@.len() ==> (#[trigger] found@[n]).entry == walk(
                    *vfs,
                    content_files@,
                    0,
                )[n].0 && found@[n].path@ == walk(*vfs, content_files@, 0)[n].1
        },
{
    match require_plugins(content_files) {
        Err(e) => {
            return Err(e);
        },
        Ok(_) => {},
    }
    let mut found: Vec<Candidate> = Vec::new();
    let mut at: usize = content_files.len();
    while at > 0
        invariant
            at <= content_files.len(),
            found@.len() == walk(*vfs, content_files@, at as int).len(),
            forall|n: int|
                0 <= n < found@.len() ==> (#[trigger] found@[n]).entry == walk(
                    *vfs,
                    content_files@,
                    at as int,
                )[n].0 && found@[n].path@ == walk(*vfs, content_files@, at as int)[n].1,
        decreases at,
    {
        at = at - 1;
        match lookup(vfs, content_files[at].as_str()) {
            Some(path) => {
                if is_fixable_plugin(path.as_str(), true) {
                    found.push(Candidate { entry: at, path });
                }
            },
            None => {},
        }
    }
    Ok(found)
}

} // verus!
