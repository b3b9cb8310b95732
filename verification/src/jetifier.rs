//! The jetification step: deciding, from the standalone jetifier's
//! output, whether an extension references the old support libraries —
//! and building the paths and arguments its invocation needs.
//!
//! The caller spawns the external jetifier process and hands its
//! captured standard output back to `jetify`.

use vstd::prelude::*;

use crate::paths::contains_bytes;
use crate::paths::{concat_bytes, contains_slice, join_path};
use crate::tree::clone_bytes;

verus! {

/// The warning the jetifier prints when an extension holds no reference
/// to the support libraries: `WARNING: [Main] No references were
/// rewritten.`
pub open spec fn no_references_warning() -> Seq<u8> {
    seq![87u8, 65u8, 82u8, 78u8, 73u8, 78u8, 71u8, 58u8, 32u8, 91u8, 77u8, 97u8, 105u8, 110u8,
        93u8, 32u8, 78u8, 111u8, 32u8, 114u8, 101u8, 102u8, 101u8, 114u8, 101u8, 110u8, 99u8,
        101u8, 115u8, 32u8, 119u8, 101u8, 114u8, 101u8, 32u8, 114u8, 101u8, 119u8, 114u8, 105u8,
        116u8, 116u8, 101u8, 110u8, 46u8]
}

/// The warning line as bytes.
pub fn no_references_warning_bytes() -> (r: Vec<u8>)
    ensures
        r@ == no_references_warning(),
{
    let v: Vec<u8> = vec![87u8, 65u8, 82u8, 78u8, 73u8, 78u8, 71u8, 58u8, 32u8, 91u8, 77u8, 97u8,
        105u8, 110u8, 93u8, 32u8, 78u8, 111u8, 32u8, 114u8, 101u8, 102u8, 101u8, 114u8, 101u8,
        110u8, 99u8, 101u8, 115u8, 32u8, 119u8, 101u8, 114u8, 101u8, 32u8, 114u8, 101u8, 119u8,
        114u8, 105u8, 116u8, 116u8, 101u8, 110u8, 46u8];
    proof {
        assert(v@ =~= no_references_warning());
    }
    v
}

/// Decides, from the jetifier's captured standard output, whether the
/// extension still needs processing: it does unless the output carries
/// the no-references warning.
pub fn jetify(jetifier_output: &Vec<u8>) -> (r: bool)
    ensures
        r == !contains_bytes(jetifier_output@, no_references_warning()),
{
    let warning = no_references_warning_bytes();
    !contains_slice(jetifier_output, &warning)
}

/// The name of the runtime archive the jetifier rewrites,
/// `AndroidRuntime.jar`.
pub open spec fn runtime_jar_name() -> Seq<u8> {
    seq![65u8, 110u8, 100u8, 114u8, 111u8, 105u8, 100u8, 82u8, 117u8, 110u8, 116u8, 105u8, 109u8,
        101u8, 46u8, 106u8, 97u8, 114u8]
}

/// The name of the directory that holds it, `files`.
pub open spec fn files_dir_name() -> Seq<u8> {
    seq![102u8, 105u8, 108u8, 101u8, 115u8]
}

/// The runtime archive of an extension: `files/AndroidRuntime.jar`
/// under its base directory.
pub fn runtime_jar_path(base_dir: &Vec<u8>, sep: u8) -> (r: Vec<u8>)
    ensures
        r@ == base_dir@ + seq![sep] + files_dir_name() + seq![sep] + runtime_jar_name(),
{
    let files: Vec<u8> = vec![102u8, 105u8, 108u8, 101u8, 115u8];
    let jar: Vec<u8> = vec![65u8, 110u8, 100u8, 114u8, 111u8, 105u8, 100u8, 82u8, 117u8, 110u8,
        116u8, 105u8, 109u8, 101u8, 46u8, 106u8, 97u8, 114u8];
    proof {
        assert(files@ =~= files_dir_name());
        assert(jar@ =~= runtime_jar_name());
    }
    let dir = join_path(base_dir, sep, &files);
    let r = join_path(&dir, sep, &jar);
    proof {
        assert(r@ =~= base_dir@ + seq![sep] + files_dir_name() + seq![sep] + runtime_jar_name());
    }
    r
}

/// The arguments of one jetifier invocation: rewrite the runtime
/// archive in place.
pub fn jetifier_args(runtime_jar: &Vec<u8>) -> (r: Vec<Vec<u8>>)
    ensures
        r@.len() == 4,
        r@[0]@ == seq![45u8, 105u8],
        r@[1]@ == runtime_jar@,
        r@[2]@ == seq![45u8, 111u8],
        r@[3]@ == runtime_jar@,
{
    let mut args: Vec<Vec<u8>> = Vec::new();
    let in_flag: Vec<u8> = vec![45u8, 105u8];
    let out_flag: Vec<u8> = vec![45u8, 111u8];
    args.push(in_flag);
    args.push(clone_bytes(runtime_jar));
    args.push(out_flag);
    args.push(clone_bytes(runtime_jar));
    args
}

/// The segments of the jetifier's install location under the data
/// directory: `tools`, `jetifier-standalone`, `bin`.
pub open spec fn tools_dir_name() -> Seq<u8> {
    seq![116u8, 111u8, 111u8, 108u8, 115u8]
}

/// `jetifier-standalone`, the tool's own directory and script name.
pub open spec fn jetifier_name() -> Seq<u8> {
    seq![106u8, 101u8, 116u8, 105u8, 102u8, 105u8, 101u8, 114u8, 45u8, 115u8, 116u8, 97u8, 110u8,
        100u8, 97u8, 108u8, 111u8, 110u8, 101u8]
}

/// `bin`, the directory of the launcher scripts.
pub open spec fn bin_dir_name() -> Seq<u8> {
    seq![98u8, 105u8, 110u8]
}

/// `.bat`, the launcher suffix on Windows hosts.
pub open spec fn bat_suffix() -> Seq<u8> {
    seq![46u8, 98u8, 97u8, 116u8]
}

/// The platform-specific launcher script of the standalone jetifier,
/// under the given data directory.
pub fn jetifer_path(data_dir: &Vec<u8>, windows: bool, sep: u8) -> (r: Vec<u8>)
    ensures
        !windows ==> r@ == data_dir@ + seq![sep] + tools_dir_name() + seq![sep] + jetifier_name()
            + seq![sep] + bin_dir_name() + seq![sep] + jetifier_name(),
        windows ==> r@ == data_dir@ + seq![sep] + tools_dir_name() + seq![sep] + jetifier_name()
            + seq![sep] + bin_dir_name() + seq![sep] + jetifier_name() + bat_suffix(),
{
    let tools: Vec<u8> = vec![116u8, 111u8, 111u8, 108u8, 115u8];
    let name: Vec<u8> = vec![106u8, 101u8, 116u8, 105u8, 102u8, 105u8, 101u8, 114u8, 45u8, 115u8,
        116u8, 97u8, 110u8, 100u8, 97u8, 108u8, 111u8, 110u8, 101u8];
    let bin: Vec<u8> = vec![98u8, 105u8, 110u8];
    proof {
        assert(tools@ =~= tools_dir_name());
        assert(name@ =~= jetifier_name());
        assert(bin@ =~= bin_dir_name());
    }
    let d = join_path(data_dir, sep, &tools);
    let d = join_path(&d, sep, &name);
    let d = join_path(&d, sep, &bin);
    let mut script = join_path(&d, sep, &name);
    if windows {
        let bat: Vec<u8> = vec![46u8, 98u8, 97u8, 116u8];
        proof {
            assert(bat@ =~= bat_suffix());
        }
        script = concat_bytes(&script, &bat);
    }
    proof {
        if windows {
            assert(script@ =~= data_dir@ + seq![sep] + tools_dir_name() + seq![sep]
                + jetifier_name() + seq![sep] + bin_dir_name() + seq![sep] + jetifier_name()
                + bat_suffix());
        } else {
            assert(script@ =~= data_dir@ + seq![sep] + tools_dir_name() + seq![sep]
                + jetifier_name() + seq![sep] + bin_dir_name() + seq![sep] + jetifier_name());
        }
    }
    script
}

} // verus!
