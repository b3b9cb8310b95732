//! The dexing step: building the invocation that replaces an
//! extension's stale `classes.jar` with a DEXed build of its jetified
//! runtime archive.
//!
//! The caller deletes the stale file, then spawns `java` with the
//! returned arguments; this module only decides the paths and the
//! argument list.

use vstd::prelude::*;

use crate::archive::classes_jar_marker;
use crate::jetifier::{files_dir_name, runtime_jar_name, tools_dir_name};
use crate::jetifier::runtime_jar_path;
use crate::paths::join_path;
use crate::tree::clone_bytes;

verus! {

/// `d8.jar`, the dexer archive stored in the data directory.
pub open spec fn d8_jar_name() -> Seq<u8> {
    seq![100u8, 56u8, 46u8, 106u8, 97u8, 114u8]
}

/// The dexer archive, `tools/d8.jar` under the given data directory.
pub fn d8_path(data_dir: &Vec<u8>, sep: u8) -> (r: Vec<u8>)
    ensures
        r@ == data_dir@ + seq![sep] + tools_dir_name() + seq![sep] + d8_jar_name(),
{
    let tools: Vec<u8> = vec![116u8, 111u8, 111u8, 108u8, 115u8];
    let jar: Vec<u8> = vec![100u8, 56u8, 46u8, 106u8, 97u8, 114u8];
    proof {
        assert(tools@ =~= tools_dir_name());
        assert(jar@ =~= d8_jar_name());
    }
    let d = join_path(data_dir, sep, &tools);
    let r = join_path(&d, sep, &jar);
    proof {
        assert(r@ =~= data_dir@ + seq![sep] + tools_dir_name() + seq![sep] + d8_jar_name());
    }
    r
}

/// `com.android.tools.r8.D8`, the dexer's main class.
pub open spec fn d8_main_class() -> Seq<u8> {
    seq![99u8, 111u8, 109u8, 46u8, 97u8, 110u8, 100u8, 114u8, 111u8, 105u8, 100u8, 46u8, 116u8,
        111u8, 111u8, 108u8, 115u8, 46u8, 114u8, 56u8, 46u8, 68u8, 56u8]
}

/// One planned dexer invocation: the stale compiled-classes file to
/// delete first, and the full argument list for `java`.
#[derive(Debug)]
pub struct DexPlan {
    pub stale_classes_jar: Vec<u8>,
    pub args: Vec<Vec<u8>>,
}

/// The argument list the plan promises: classpath to the dexer
/// archive, its main class, a release build, the compiled-classes
/// output, and the jetified runtime archive as input.
pub open spec fn dex_args_model(base_dir: Seq<u8>, data_dir: Seq<u8>, sep: u8) -> Seq<Seq<u8>> {
    seq![
        seq![45u8, 99u8, 112u8],
        data_dir + seq![sep] + tools_dir_name() + seq![sep] + d8_jar_name(),
        d8_main_class(),
        seq![45u8, 45u8, 114u8, 101u8, 108u8, 101u8, 97u8, 115u8, 101u8],
        seq![45u8, 45u8, 111u8, 117u8, 116u8, 112u8, 117u8, 116u8],
        base_dir + seq![sep] + classes_jar_marker(),
        base_dir + seq![sep] + files_dir_name() + seq![sep] + runtime_jar_name(),
    ]
}

/// Plans the dexing of one extension: names the stale `classes.jar`
/// under its base directory, and the exact `java` invocation that
/// rebuilds it from the jetified runtime archive.
pub fn dex(base_dir: &Vec<u8>, data_dir: &Vec<u8>, sep: u8) -> (r: DexPlan)
    ensures
        r.stale_classes_jar@ == base_dir@ + seq![sep] + classes_jar_marker(),
        r.args@.len() == dex_args_model(base_dir@, data_dir@, sep).len(),
        forall|i: int| 0 <= i < r.args@.len() ==> r.args@[i]@ == dex_args_model(
            base_dir@,
            data_dir@,
            sep,
        )[i],
{
    let classes: Vec<u8> = vec![99u8, 108u8, 97u8, 115u8, 115u8, 101u8, 115u8, 46u8, 106u8, 97u8,
        114u8];
    let main_class: Vec<u8> = vec![99u8, 111u8, 109u8, 46u8, 97u8, 110u8, 100u8, 114u8, 111u8,
        105u8, 100u8, 46u8, 116u8, 111u8, 111u8, 108u8, 115u8, 46u8, 114u8, 56u8, 46u8, 68u8, 56u8];
    let cp_flag: Vec<u8> = vec![45u8, 99u8, 112u8];
    let release_flag: Vec<u8> = vec![45u8, 45u8, 114u8, 101u8, 108u8, 101u8, 97u8, 115u8, 101u8];
    let output_flag: Vec<u8> = vec![45u8, 45u8, 111u8, 117u8, 116u8, 112u8, 117u8, 116u8];
    proof {
        assert(classes@ =~= classes_jar_marker());
        assert(main_class@ =~= d8_main_class());
    }
    let classes_jar = join_path(base_dir, sep, &classes);
    let d8 = d8_path(data_dir, sep);
    let runtime_jar = runtime_jar_path(base_dir, sep);
    let stale = clone_bytes(&classes_jar);
    let mut args: Vec<Vec<u8>> = Vec::new();
    args.push(cp_flag);
    args.push(d8);
    args.push(main_class);
    args.push(release_flag);
    args.push(output_flag);
    args.push(classes_jar);
    args.push(runtime_jar);
    proof {
        assert(forall|i: int| 0 <= i < args@.len() ==> args@[i]@ == dex_args_model(
            base_dir@,
            data_dir@,
            sep,
        )[i]);
    }
    DexPlan { stale_classes_jar: stale, args }
}

} // verus!
