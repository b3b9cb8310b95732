// Path utilities, pipeline decisions, and the external-tool invocation
// plans.

use recast::dexer::{d8_path, dex};
use recast::jetifier::{jetifer_path, jetifier_args, jetify, runtime_jar_path};
use recast::paths::{contains_slice, ends_with, is_safe_name, normalize_separators, parent_name,
    to_host_separators};
use recast::pipeline::{archive_type_of, file_stem, packed_output_name};
use recast::archive::ArchiveType;
use recast::util::data_dir;

#[test]
fn backslashes_are_normalized_to_forward_slashes() {
    assert_eq!(normalize_separators(&b"a\\b\\c.txt".to_vec()), b"a/b/c.txt".to_vec());
    assert_eq!(normalize_separators(&b"plain".to_vec()), b"plain".to_vec());
}

#[test]
fn forward_slashes_map_to_the_host_separator() {
    assert_eq!(to_host_separators(&b"a/b/c".to_vec(), b'\\'), b"a\\b\\c".to_vec());
    assert_eq!(to_host_separators(&b"a/b/c".to_vec(), b'/'), b"a/b/c".to_vec());
}

#[test]
fn suffix_matching_is_exact() {
    assert!(ends_with(&b"ext.properties".to_vec(), &b".properties".to_vec()));
    assert!(!ends_with(&b"properties".to_vec(), &b".properties".to_vec()));
    assert!(ends_with(&b"anything".to_vec(), &b"".to_vec()));
}

#[test]
fn parent_of_an_entry_name_stops_at_the_last_slash() {
    assert_eq!(parent_name(&b"pkg/sub/ext.properties".to_vec()), b"pkg/sub".to_vec());
    assert_eq!(parent_name(&b"toplevel".to_vec()), b"".to_vec());
}

#[test]
fn the_safety_gate_rejects_escaping_names() {
    assert!(is_safe_name(&b"pkg/sub/file.txt".to_vec()));
    assert!(is_safe_name(&b"pkg/".to_vec()));
    assert!(!is_safe_name(&b"".to_vec()));
    assert!(!is_safe_name(&b"/etc/shadow".to_vec()));
    assert!(!is_safe_name(&b"../up.txt".to_vec()));
    assert!(!is_safe_name(&b"pkg/../up.txt".to_vec()));
    assert!(!is_safe_name(&b"pkg/..".to_vec()));
    assert!(!is_safe_name(&b"pkg//double".to_vec()));
    assert!(!is_safe_name(&b"pkg/nul\0byte".to_vec()));
    assert!(!is_safe_name(&b"..\\evil.txt".to_vec()));
    assert!(!is_safe_name(&b"C:\\system".to_vec()));
    assert!(!is_safe_name(&b"pkg\\file.txt".to_vec()));
    assert!(is_safe_name(&b"pkg/..dots/three...dots".to_vec()));
}

#[test]
fn substring_search_finds_the_needle() {
    assert!(contains_slice(&b"abc warning xyz".to_vec(), &b"warning".to_vec()));
    assert!(!contains_slice(&b"abc warning xyz".to_vec(), &b"error".to_vec()));
    assert!(contains_slice(&b"anything".to_vec(), &b"".to_vec()));
}

#[test]
fn jetify_decides_from_the_jetifier_output() {
    let clean = b"Rewriting things...\nWARNING: [Main] No references were rewritten.\n".to_vec();
    let dirty = b"Rewriting things...\ndone.\n".to_vec();
    assert!(!jetify(&clean));
    assert!(jetify(&dirty));
}

#[test]
fn jetifier_invocation_rewrites_the_runtime_jar_in_place() {
    let art = runtime_jar_path(&b"/tmp/base".to_vec(), b'/');
    assert_eq!(art, b"/tmp/base/files/AndroidRuntime.jar".to_vec());
    let args = jetifier_args(&art);
    assert_eq!(
        args,
        vec![
            b"-i".to_vec(),
            b"/tmp/base/files/AndroidRuntime.jar".to_vec(),
            b"-o".to_vec(),
            b"/tmp/base/files/AndroidRuntime.jar".to_vec(),
        ]
    );
}

#[test]
fn the_jetifier_script_is_platform_specific() {
    let data = b"/home/u/.recast".to_vec();
    assert_eq!(
        jetifer_path(&data, false, b'/'),
        b"/home/u/.recast/tools/jetifier-standalone/bin/jetifier-standalone".to_vec()
    );
    assert_eq!(
        jetifer_path(&data, true, b'/'),
        b"/home/u/.recast/tools/jetifier-standalone/bin/jetifier-standalone.bat".to_vec()
    );
}

#[test]
fn the_dex_plan_names_the_stale_jar_and_the_full_invocation() {
    let plan = dex(&b"/work/ext".to_vec(), &b"/home/u/.recast".to_vec(), b'/');
    assert_eq!(plan.stale_classes_jar, b"/work/ext/classes.jar".to_vec());
    assert_eq!(
        plan.args,
        vec![
            b"-cp".to_vec(),
            b"/home/u/.recast/tools/d8.jar".to_vec(),
            b"com.android.tools.r8.D8".to_vec(),
            b"--release".to_vec(),
            b"--output".to_vec(),
            b"/work/ext/classes.jar".to_vec(),
            b"/work/ext/files/AndroidRuntime.jar".to_vec(),
        ]
    );
}

#[test]
fn d8_lives_under_the_tools_directory() {
    assert_eq!(
        d8_path(&b"/home/u/.recast".to_vec(), b'/'),
        b"/home/u/.recast/tools/d8.jar".to_vec()
    );
}

#[test]
fn the_data_dir_sits_under_the_home_directory() {
    assert_eq!(data_dir(&b"/home/u".to_vec(), b'/'), b"/home/u/.recast".to_vec());
    assert_eq!(
        data_dir(&b"C:\\Users\\u".to_vec(), b'\\'),
        b"C:\\Users\\u\\.recast".to_vec()
    );
}

#[test]
fn the_container_kind_follows_the_file_extension() {
    assert_eq!(archive_type_of(&b"project.aia".to_vec()), ArchiveType::Aia);
    assert_eq!(archive_type_of(&b"vertical.aix".to_vec()), ArchiveType::Aix);
    assert_eq!(archive_type_of(&b"plain.zip".to_vec()), ArchiveType::Aix);
}

#[test]
fn output_names_derive_from_the_stem() {
    assert_eq!(file_stem(&b"project.aia".to_vec()), b"project".to_vec());
    assert_eq!(file_stem(&b"no_dots".to_vec()), b"no_dots".to_vec());
    assert_eq!(
        packed_output_name(&b"project.aia".to_vec(), &b"_x.aia".to_vec()),
        b"project_x.aia".to_vec()
    );
    assert_eq!(
        packed_output_name(&b"vertical".to_vec(), &b".x.aix".to_vec()),
        b"vertical.x.aix".to_vec()
    );
}
