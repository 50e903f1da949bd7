//! The configuration of the tracker: the optional user-chosen data-file
//! path, its validation rules, the resolution of the platform-default data
//! and configuration file locations, and the TOML codec of the
//! configuration file.
//!
//! Paths are Unix-style strings here: a path is absolute exactly when it
//! starts with `/`. Whether a path names a directory, and whether its parent
//! directory exists, are facts of the file system; the caller probes them
//! and hands the two findings to `validate`.

use vstd::prelude::*;

use crate::chars::{chars_eq, chars_to_string, string_to_chars};
use crate::engine::{append_tok, expect};
use crate::error::TodoError;
use crate::escape::{esc_append, esc_text, payload_shape, scan_escaped};

verus! {

/// The mathematical value of a `Config`: the chosen data path's text, if one
/// is set.
pub open spec fn opt_text(o: Option<String>) -> Option<Seq<char>> {
    match o {
        Some(s) => Some(s@),
        None => None,
    }
}

/// The configuration: the optional path of the task data file. `None` means
/// the platform-default location.
#[derive(Debug)]
pub struct Config {
    data_path_file: Option<String>,
}

impl View for Config {
    type V = Option<Seq<char>>;

    closed spec fn view(&self) -> Option<Seq<char>> {
        opt_text(self.data_path_file)
    }
}

impl Default for Config {
    /// The default configuration chooses no path of its own.
    fn default() -> (r: Config)
        ensures
            r@ is None,
    {
        Config { data_path_file: None }
    }
}

/// Whether a path text is absolute (Unix rule: it starts with `/`).
pub open spec fn is_absolute_text(p: Seq<char>) -> bool {
    p.len() > 0 && p[0] == '/'
}

/// What `validate` decides, given the configured path and the two file
/// system findings about it: a set path must be absolute, must not name a
/// directory, and must have an existing parent directory.
pub open spec fn spec_validate(
    c: Option<Seq<char>>,
    path_is_dir: bool,
    parent_is_dir: bool,
) -> Result<(), TodoError> {
    match c {
        None => Ok(()),
        Some(p) => {
            if !is_absolute_text(p) {
                Err(TodoError::RelativeDataPath)
            } else if path_is_dir {
                Err(TodoError::DataPathIsDirectory)
            } else if !parent_is_dir {
                Err(TodoError::DataPathParentMissing)
            } else {
                Ok(())
            }
        },
    }
}

/// The canonical content of the configuration file: empty when no path is
/// set, one quoted `data_path_file` entry otherwise.
pub open spec fn enc_config(c: Option<Seq<char>>) -> Seq<char> {
    match c {
        None => Seq::<char>::empty(),
        Some(p) => "data_path_file = \""@ + esc_text(p, false) + "\"\n"@,
    }
}

impl Config {
    /// Chooses the data path; `None` returns to the platform default.
    pub fn set_data_path(&mut self, new_path: Option<String>)
        ensures
            final(self)@ == opt_text(new_path),
    {
        self.data_path_file = new_path;
    }

    /// The path of the task data file: the configured one, or the file
    /// `task.list` in the platform data directory. Fails when the platform
    /// defines no data directory.
    pub fn get_data_path(&self) -> (r: Result<String, TodoError>)
        ensures
            self@ matches Some(p) ==> (r matches Ok(q) && q@ == p),
            self@ is None ==> (r matches Ok(q) ==> exists|d: Seq<char>| q@ == d + "/task.list"@),
            r matches Err(e) ==> self@ is None && e == TodoError::Io,
    {
        match &self.data_path_file {
            Some(p) => Ok(p.clone()),
            None => match platform_data_dir() {
                Some(dir) => {
                    let mut s = dir;
                    let ghost d = s@;
                    s.append("/task.list");
                    proof {
                        assert(s@ == d + "/task.list"@);
                    }
                    Ok(s)
                },
                None => Err(TodoError::Io),
            },
        }
    }

    /// Decides whether the configuration is valid: see `spec_validate`. The
    /// two flags are the caller's file system findings about the configured
    /// path: whether it names a directory, and whether its parent directory
    /// exists and is a directory (pass `true` when the path has no parent).
    pub fn validate(&self, path_is_dir: bool, parent_is_dir: bool) -> (r: Result<(), TodoError>)
        ensures
            r == spec_validate(self@, path_is_dir, parent_is_dir),
    {
        match &self.data_path_file {
            None => Ok(()),
            Some(p) => {
                let ps = p.as_str();
                let absolute = ps.unicode_len() > 0 && ps.get_char(0) == '/';
                if !absolute {
                    Err(TodoError::RelativeDataPath)
                } else if path_is_dir {
                    Err(TodoError::DataPathIsDirectory)
                } else if !parent_is_dir {
                    Err(TodoError::DataPathParentMissing)
                } else {
                    Ok(())
                }
            },
        }
    }
}

/// The path of the configuration file: `todo.config` in the platform
/// configuration directory. Fails when the platform defines no such
/// directory.
pub fn get_config_path() -> (r: Result<String, TodoError>)
    ensures
        r matches Ok(q) ==> exists|d: Seq<char>| q@ == d + "/todo.config"@,
        r matches Err(e) ==> e == TodoError::Io,
{
    match platform_config_dir() {
        Some(dir) => {
            let mut s = dir;
            let ghost d = s@;
            s.append("/todo.config");
            proof {
                assert(s@ == d + "/todo.config"@);
            }
            Ok(s)
        },
        None => Err(TodoError::Io),
    }
}

/// Relies on `dirs::data_dir`: the platform's data directory, if the
/// platform defines one. The result depends on the host environment, so
/// nothing is promised of it.
#[verifier::external_body]
fn platform_data_dir() -> Option<String> {
    match dirs::data_dir() {
        Some(p) => match p.to_str() {
            Some(s) => Some(s.to_string()),
            None => None,
        },
        None => None,
    }
}

/// Relies on `dirs::config_dir`: the platform's configuration directory, if
/// the platform defines one. The result depends on the host environment, so
/// nothing is promised of it.
#[verifier::external_body]
fn platform_config_dir() -> Option<String> {
    match dirs::config_dir() {
        Some(p) => match p.to_str() {
            Some(s) => Some(s.to_string()),
            None => None,
        },
        None => None,
    }
}

/// Renders the configuration in its canonical file content.
pub fn config_to_content(config: &Config) -> (r: String)
    ensures
        r@ == enc_config(config@),
{
    let out = config_chars(config);
    chars_to_string(&out)
}

/// The canonical file content of the configuration, as characters.
fn config_chars(config: &Config) -> (out: Vec<char>)
    ensures
        out@ == enc_config(config@),
{
    match &config.data_path_file {
        None => {
            let out: Vec<char> = Vec::new();
            proof {
                assert(out@ =~= enc_config(config@));
            }
            out
        },
        Some(p) => {
            let mut out = string_to_chars("data_path_file = \"");
            let pc = string_to_chars(p.as_str());
            esc_append(&mut out, &pc, false);
            let closing = string_to_chars("\"\n");
            append_tok(&mut out, &closing);
            out
        },
    }
}

/// Reads the configuration back from file content. Exactly the canonical
/// contents are accepted: reading back what `config_to_content` wrote yields
/// the same configuration, and every accepted content is canonical.
pub fn config_from_content(content: &str) -> (r: Result<Config, TodoError>)
    ensures
        forall|c: Option<Seq<char>>|
            content@ == enc_config(c) ==> (r matches Ok(cfg) && cfg@ == c),
        r matches Ok(cfg) ==> content@ == enc_config(cfg@),
        r matches Err(e) ==> e == TodoError::Decode,
{
    let cs = string_to_chars(content);
    if cs.len() == 0 {
        let cfg = Config { data_path_file: None };
        proof {
            assert(content@ =~= enc_config(cfg@));
            assert forall|c: Option<Seq<char>>| content@ == enc_config(c) implies c is None by {
                if c matches Some(p) {
                    reveal_strlit("data_path_file = \"");
                }
            }
        }
        return Ok(cfg);
    }
    let lit1 = string_to_chars("data_path_file = \"");
    let closing = string_to_chars("\"\n");
    proof {
        assert forall|c: Option<Seq<char>>| content@ == enc_config(c) implies ({
            &&& c matches Some(p)
            &&& cs@.subrange(0, lit1@.len() as int) == lit1@
            &&& lit1@.len() <= cs@.len()
            &&& payload_shape(cs@, lit1@.len() as int, p, "\"\n"@, false)
            &&& cs@.len() as int == lit1@.len() + esc_text(p, false).len() + 2
        }) by {
            if c is None {
                assert(enc_config(c).len() == 0);
            } else {
                let p = c->0;
                crate::engine::lemma_concat_assoc(lit1@, esc_text(p, false), "\"\n"@);
                assert(cs@.skip(0) =~= cs@);
                crate::chars::lemma_skip_concat(cs@, 0, lit1@, esc_text(p, false) + "\"\n"@);
                reveal_strlit("\"\n");
            }
        }
    }
    match expect(&cs, 0, &lit1) {
        None => Err(TodoError::Decode),
        Some(j) => {
            match scan_escaped(&cs, j, false) {
                None => {
                    proof {
                        assert forall|c: Option<Seq<char>>| !(content@ == enc_config(c)) by {}
                    }
                    Err(TodoError::Decode)
                },
                Some((pv, j2)) => {
                    match expect(&cs, j2, &closing) {
                        None => {
                            proof {
                                assert forall|c: Option<Seq<char>>|
                                    !(content@ == enc_config(c)) by {
                                    if content@ == enc_config(c) {
                                        let p = c->0;
                                        crate::chars::lemma_skip_concat(
                                            cs@,
                                            j as int,
                                            esc_text(p, false),
                                            "\"\n"@,
                                        );
                                        reveal_strlit("\"\n");
                                        assert(cs@.skip(j2 as int) =~= "\"\n"@
                                            + Seq::<char>::empty());
                                        crate::chars::lemma_skip_concat(
                                            cs@,
                                            j2 as int,
                                            "\"\n"@,
                                            Seq::<char>::empty(),
                                        );
                                    }
                                }
                            }
                            Err(TodoError::Decode)
                        },
                        Some(j3) => {
                            if j3 != cs.len() {
                                proof {
                                    assert forall|c: Option<Seq<char>>|
                                        !(content@ == enc_config(c)) by {
                                        if content@ == enc_config(c) {
                                            reveal_strlit("\"\n");
                                        }
                                    }
                                }
                                return Err(TodoError::Decode);
                            }
                            let cfg = Config { data_path_file: Some(chars_to_string(&pv)) };
                            let out = config_chars(&cfg);
                            if chars_eq(&out, &cs) {
                                Ok(cfg)
                            } else {
                                proof {
                                    assert forall|c: Option<Seq<char>>|
                                        !(content@ == enc_config(c)) by {
                                        if content@ == enc_config(c) {
                                            assert(cfg@ == c);
                                        }
                                    }
                                }
                                Err(TodoError::Decode)
                            }
                        },
                    }
                },
            }
        },
    }
}

} // verus!
