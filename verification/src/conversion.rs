//! Converting the task file between formats. `Export` re-emits the TOML
//! task file in a chosen foreign format; `Import` reads a foreign-format
//! file and re-encodes it as the TOML task file. Both work on file content;
//! the thin command-line layer reads and writes the files themselves.

use vstd::prelude::*;

use crate::error::TodoError;
use crate::formats::enc_store_fmt;
use crate::storage::{decode_store, encode_store, load_store_content};
use crate::task::TaskView;
use crate::tasks::store_wf;

verus! {

/// A serialization format of the task file. TOML is the default format, the
/// one the live task file is stored in; the others serve as conversion
/// targets and sources.
#[derive(Clone, Copy, Debug, PartialEq, Eq, Structural)]
pub enum Formats {
    JSON,
    YAML,
    XML,
    TOML,
}

/// The direction of a conversion.
#[derive(Clone, Copy, Debug, PartialEq, Eq, Structural)]
pub enum ConvertAction {
    Import,
    Export,
}

/// A parsed conversion request: the direction, the foreign format, and the
/// path of the foreign file.
pub struct ConvertCommand {
    pub action: ConvertAction,
    pub format: Formats,
    pub path: String,
}

/// Exports: turns the content of the task file (TOML; absent or empty means
/// an empty store) into the same store encoded in `format`.
pub fn export_content(task_file_content: &str, format: Formats) -> (r: Result<String, TodoError>)
    ensures
        forall|v: Seq<(usize, TaskView)>|
            store_wf(v) && task_file_content@ == enc_store_fmt(v, Formats::TOML) ==> (r matches Ok(
                out,
            ) && out@ == enc_store_fmt(v, format)),
        task_file_content@.len() == 0 ==> (r matches Ok(out) && out@ == enc_store_fmt(
            Seq::<(usize, TaskView)>::empty(),
            format,
        )),
        r matches Ok(out) ==> exists|v: Seq<(usize, TaskView)>|
            store_wf(v) && out@ == enc_store_fmt(v, format),
        r matches Err(e) ==> e == TodoError::Decode,
{
    match load_store_content(task_file_content, Formats::TOML) {
        Err(e) => Err(e),
        Ok(ts) => {
            let out = encode_store(&ts, format);
            proof {
                assert(store_wf(ts@) && out@ == enc_store_fmt(ts@, format));
            }
            Ok(out)
        },
    }
}

/// Imports: turns a foreign-format encoding back into the TOML content of
/// the task file. Importing what `export_content` produced restores the
/// store exactly — identifiers, names, descriptions and flags included.
pub fn import_content(foreign_content: &str, format: Formats) -> (r: Result<String, TodoError>)
    ensures
        forall|v: Seq<(usize, TaskView)>|
            store_wf(v) && foreign_content@ == enc_store_fmt(v, format) ==> (r matches Ok(out)
                && out@ == enc_store_fmt(v, Formats::TOML)),
        r matches Ok(out) ==> exists|v: Seq<(usize, TaskView)>|
            store_wf(v) && foreign_content@ == enc_store_fmt(v, format) && out@ == enc_store_fmt(
                v,
                Formats::TOML,
            ),
        r matches Err(e) ==> e == TodoError::Decode,
{
    match decode_store(foreign_content, format) {
        Err(e) => Err(e),
        Ok(ts) => {
            let out = encode_store(&ts, Formats::TOML);
            proof {
                assert(store_wf(ts@) && foreign_content@ == enc_store_fmt(ts@, format) && out@
                    == enc_store_fmt(ts@, Formats::TOML));
            }
            Ok(out)
        },
    }
}

} // verus!
