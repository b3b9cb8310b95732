// Round-trip and reader/writer behaviour of the archive engine, through
// the real ZIP codec.

use recast::archive::{pack_dir, extract_file, decode_entries, encode_entries, ArchiveType,
    classes_jar_marker_bytes, properties_marker_bytes};
use recast::extract::{extract_aix, find_base_dir};
use recast::tree::{Entry, FsNode, pack_entries};
use recast::ArchiveError;

fn file(name: &[u8], contents: &[u8]) -> FsNode {
    FsNode::File { name: name.to_vec(), contents: contents.to_vec() }
}

fn dir(name: &[u8], children: Vec<FsNode>) -> FsNode {
    FsNode::Dir { name: name.to_vec(), children }
}

fn sample_tree() -> FsNode {
    dir(
        b"root",
        vec![
            file(b"a.txt", b"hello"),
            dir(b"sub", vec![file(b"b.txt", &[0u8, 1, 2, 255])]),
        ],
    )
}

#[test]
fn pack_then_extract_reproduces_the_file_set() {
    let tree = sample_tree();
    let bytes = pack_dir(&tree, None).expect("packing an in-memory tree");
    let plan = extract_aix(bytes, b'/').expect("extracting what was just packed");

    let file_names: Vec<Vec<u8>> = plan.files.iter().map(|f| f.0.clone()).collect();
    assert_eq!(file_names, vec![b"root/a.txt".to_vec(), b"root/sub/b.txt".to_vec()]);
    assert_eq!(plan.files[0].1, b"hello".to_vec());
    assert_eq!(plan.files[1].1, vec![0u8, 1, 2, 255]);
    assert_eq!(plan.dirs, vec![b"root".to_vec(), b"root/sub".to_vec()]);
}

#[test]
fn pack_then_extract_with_exclusion_token_unwraps_the_root() {
    let tree = sample_tree();
    let token = b"root".to_vec();
    let bytes = pack_dir(&tree, Some(&token)).expect("packing with the exclusion token");
    let plan = extract_aix(bytes, b'/').expect("extracting what was just packed");

    let file_names: Vec<Vec<u8>> = plan.files.iter().map(|f| f.0.clone()).collect();
    assert_eq!(file_names, vec![b"a.txt".to_vec(), b"sub/b.txt".to_vec()]);
    assert_eq!(plan.dirs, vec![b"sub".to_vec()]);
}

#[test]
fn exclusion_token_drops_root_entry_but_keeps_sibling_directories() {
    let tree = sample_tree();
    let token = b"root".to_vec();
    let entries = pack_entries(&tree, Some(&token));
    let names: Vec<Vec<u8>> = entries.iter().map(|e| e.name.clone()).collect();
    assert_eq!(names, vec![b"a.txt".to_vec(), b"sub/".to_vec(), b"sub/b.txt".to_vec()]);
}

#[test]
fn exclusion_token_that_matches_nothing_changes_nothing() {
    let tree = sample_tree();
    let token = b"elsewhere".to_vec();
    let with = pack_entries(&tree, Some(&token));
    let without = pack_entries(&tree, None);
    let with_names: Vec<Vec<u8>> = with.iter().map(|e| e.name.clone()).collect();
    let without_names: Vec<Vec<u8>> = without.iter().map(|e| e.name.clone()).collect();
    assert_eq!(with_names, without_names);
    assert_eq!(
        without_names,
        vec![
            b"root/".to_vec(),
            b"root/a.txt".to_vec(),
            b"root/sub/".to_vec(),
            b"root/sub/b.txt".to_vec(),
        ]
    );
}

#[test]
fn packed_entry_names_use_forward_slashes_only() {
    let tree = sample_tree();
    let entries = pack_entries(&tree, None);
    assert!(entries.len() > 0);
    for e in &entries {
        assert!(!e.name.contains(&b'\\'));
    }
}

#[test]
fn extraction_maps_names_to_the_host_separator() {
    let tree = sample_tree();
    let bytes = pack_dir(&tree, None).expect("packing");
    let plan = extract_aix(bytes, b'\\').expect("extracting");
    let file_names: Vec<Vec<u8>> = plan.files.iter().map(|f| f.0.clone()).collect();
    assert_eq!(file_names, vec![b"root\\a.txt".to_vec(), b"root\\sub\\b.txt".to_vec()]);
}

#[test]
fn base_dir_resolution_follows_the_properties_marker() {
    let entries = vec![
        Entry { name: b"pkg/".to_vec(), data: None },
        Entry { name: b"pkg/sub/".to_vec(), data: None },
        Entry { name: b"pkg/sub/ext.properties".to_vec(), data: Some(b"name=ext".to_vec()) },
    ];
    let marker = properties_marker_bytes();
    let base = find_base_dir(&entries, &marker);
    assert_eq!(base, Some(b"pkg/sub".to_vec()));
}

#[test]
fn base_dir_resolution_without_a_marker_finds_nothing() {
    let entries = vec![Entry { name: b"pkg/readme.txt".to_vec(), data: Some(b"x".to_vec()) }];
    let marker = properties_marker_bytes();
    assert_eq!(find_base_dir(&entries, &marker), None);
}

#[test]
fn extracting_an_aix_resolves_the_base_dir_through_classes_jar() {
    let tree = dir(
        b"vertical",
        vec![
            file(b"classes.jar", b"jar bytes"),
            dir(b"files", vec![file(b"AndroidRuntime.jar", b"art")]),
        ],
    );
    let bytes = pack_dir(&tree, None).expect("packing");
    let out = extract_file(bytes, &ArchiveType::Aix, b'/').expect("extracting");
    assert_eq!(out.base_dirs, vec![b"vertical".to_vec()]);
}

#[test]
fn extracting_an_aix_without_classes_jar_is_not_found() {
    let tree = dir(b"vertical", vec![file(b"readme.txt", b"no classes here")]);
    let bytes = pack_dir(&tree, None).expect("packing");
    let err = extract_file(bytes, &ArchiveType::Aix, b'/').unwrap_err();
    assert_eq!(err, ArchiveError::NotFound);
}

#[test]
fn extracting_an_aia_lists_one_base_dir_per_unit() {
    let tree = dir(
        b"assets",
        vec![dir(
            b"external_comps",
            vec![
                dir(b"com.example.one", vec![file(b"classes.jar", b"1")]),
                dir(b"com.example.two", vec![file(b"classes.jar", b"2")]),
            ],
        )],
    );
    let bytes = pack_dir(&tree, None).expect("packing");
    let out = extract_file(bytes, &ArchiveType::Aia, b'/').expect("extracting");
    assert_eq!(
        out.base_dirs,
        vec![
            b"assets/external_comps/com.example.one".to_vec(),
            b"assets/external_comps/com.example.two".to_vec(),
        ]
    );
}

#[test]
fn decoding_garbage_is_a_malformed_archive() {
    let err = decode_entries(b"this is not a zip stream".to_vec()).unwrap_err();
    assert_eq!(err, ArchiveError::MalformedArchive);
}

#[test]
fn extraction_refuses_a_traversal_entry_name() {
    let entries = vec![Entry { name: b"../evil.txt".to_vec(), data: Some(b"boom".to_vec()) }];
    let bytes = encode_entries(&entries).expect("encoding");
    let err = extract_aix(bytes, b'/').unwrap_err();
    assert_eq!(err, ArchiveError::InvalidPath);
}

#[test]
fn extraction_refuses_a_backslash_entry_name() {
    let entries = vec![Entry { name: b"..\\evil.txt".to_vec(), data: Some(b"boom".to_vec()) }];
    let bytes = encode_entries(&entries).expect("encoding");
    let err = extract_aix(bytes, b'\\').unwrap_err();
    assert_eq!(err, ArchiveError::InvalidPath);
}

#[test]
fn extracting_an_aia_without_its_units_directory_is_not_found() {
    let tree = dir(b"assets", vec![file(b"readme.txt", b"nothing inside")]);
    let bytes = pack_dir(&tree, None).expect("packing");
    let err = extract_file(bytes, &ArchiveType::Aia, b'/').unwrap_err();
    assert_eq!(err, ArchiveError::NotFound);
}

#[test]
fn an_empty_units_directory_yields_no_base_dirs() {
    let tree = dir(b"assets", vec![dir(b"external_comps", vec![])]);
    let bytes = pack_dir(&tree, None).expect("packing");
    let out = extract_file(bytes, &ArchiveType::Aia, b'/').expect("extracting");
    assert_eq!(out.base_dirs, Vec::<Vec<u8>>::new());
}

#[test]
fn encoding_refuses_a_name_beyond_the_wire_limit() {
    let entries = vec![Entry { name: vec![b'a'; 65536], data: Some(b"x".to_vec()) }];
    let err = encode_entries(&entries).unwrap_err();
    assert_eq!(err, ArchiveError::InvalidPath);
}

#[test]
fn an_unencrypted_entry_with_an_aes_extra_field_is_malformed() {
    // A hand-built container: one entry whose central-directory record
    // carries an AES extra field while its encrypted flag is clear. The
    // central directory parses, but the entry cannot be read; decoding
    // must report a malformed container rather than give up.
    let mut z: Vec<u8> = Vec::new();
    // Local file header: method deflate, empty data, name "a".
    z.extend_from_slice(&[
        0x50, 0x4B, 0x03, 0x04, 20, 0, 0, 0, 8, 0, 0, 0, 0, 0, 0, 0, 0, 0, 0, 0, 0, 0, 0, 0, 0,
        0, 1, 0, 0, 0,
    ]);
    z.push(b'a');
    // Central directory header for the same entry, extra field 11 bytes.
    z.extend_from_slice(&[
        0x50, 0x4B, 0x01, 0x02, 20, 0, 20, 0, 0, 0, 8, 0, 0, 0, 0, 0, 0, 0, 0, 0, 0, 0, 0, 0, 0,
        0, 0, 0, 1, 0, 11, 0, 0, 0, 0, 0, 0, 0, 0, 0, 0, 0, 0, 0, 0, 0,
    ]);
    z.push(b'a');
    // AES extra field: id 0x9901, length 7, vendor version AE-2,
    // vendor "AE", strength AES-128, real method deflate.
    z.extend_from_slice(&[0x01, 0x99, 0x07, 0x00, 0x02, 0x00, 0x41, 0x45, 0x01, 0x08, 0x00]);
    // End of central directory: one entry, directory of 58 bytes at 31.
    z.extend_from_slice(&[
        0x50, 0x4B, 0x05, 0x06, 0, 0, 0, 0, 1, 0, 1, 0, 58, 0, 0, 0, 31, 0, 0, 0, 0, 0,
    ]);

    let err = decode_entries(z).unwrap_err();
    assert_eq!(err, ArchiveError::MalformedArchive);
}

#[test]
fn decoding_reads_back_what_was_encoded() {
    let entries = vec![
        Entry { name: b"d/".to_vec(), data: None },
        Entry { name: b"d/one.bin".to_vec(), data: Some(vec![9u8, 8, 7]) },
        Entry { name: b"two.bin".to_vec(), data: Some(Vec::new()) },
    ];
    let bytes = encode_entries(&entries).expect("encoding");
    let back = decode_entries(bytes).expect("decoding");
    assert_eq!(back.len(), 3);
    assert_eq!(back[0].name, b"d/".to_vec());
    assert_eq!(back[0].data, None);
    assert_eq!(back[1].name, b"d/one.bin".to_vec());
    assert_eq!(back[1].data, Some(vec![9u8, 8, 7]));
    assert_eq!(back[2].name, b"two.bin".to_vec());
    assert_eq!(back[2].data, Some(Vec::new()));
}

#[test]
fn packed_bytes_are_a_real_zip_container() {
    let tree = sample_tree();
    let bytes = pack_dir(&tree, None).expect("packing");
    let mut za = zip::ZipArchive::new(std::io::Cursor::new(bytes)).expect("opening with zip");

    let mut names: Vec<String> = Vec::new();
    let mut a_contents = Vec::new();
    for i in 0..za.len() {
        let mut f = za.by_index(i).expect("reading an entry");
        names.push(f.name().to_string());
        if f.name() == "root/a.txt" {
            std::io::Read::read_to_end(&mut f, &mut a_contents).expect("reading contents");
        }
    }
    assert_eq!(names, vec!["root/", "root/a.txt", "root/sub/", "root/sub/b.txt"]);
    assert_eq!(a_contents, b"hello".to_vec());
}

#[test]
fn the_marker_constants_spell_their_names() {
    assert_eq!(classes_jar_marker_bytes(), b"classes.jar".to_vec());
    assert_eq!(properties_marker_bytes(), b".properties".to_vec());
}
