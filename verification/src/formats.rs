//! The token tables of the four supported formats. Each format wraps the
//! same record layout — identifier, name, description, completion flag — in
//! its own literal tokens; the engine does the rest.

use vstd::prelude::*;

use crate::chars::string_to_chars;
use crate::conversion::Formats;
use crate::engine::{enc_store, toks_wf, Toks, ToksView};
use crate::task::TaskView;

verus! {

/// The token table of a format.
pub open spec fn fmt_toks(f: Formats) -> ToksView {
    match f {
        Formats::JSON => ToksView {
            header: "{\"tasks\":["@,
            rec_open: "{\"id\":"@,
            id_to_name: ",\"name\":\""@,
            name_to_desc: "\",\"description\":\""@,
            desc_to_flag: "\",\"completed\":"@,
            rec_close: "}"@,
            sep: ","@,
            footer: "]}"@,
            xml: false,
        },
        Formats::TOML => ToksView {
            header: Seq::<char>::empty(),
            rec_open: "[[tasks]]\nid = "@,
            id_to_name: "\nname = \""@,
            name_to_desc: "\"\ndescription = \""@,
            desc_to_flag: "\"\ncompleted = "@,
            rec_close: "\n"@,
            sep: Seq::<char>::empty(),
            footer: Seq::<char>::empty(),
            xml: false,
        },
        Formats::YAML => ToksView {
            header: "tasks:\n"@,
            rec_open: "- id: "@,
            id_to_name: "\n  name: \""@,
            name_to_desc: "\"\n  description: \""@,
            desc_to_flag: "\"\n  completed: "@,
            rec_close: "\n"@,
            sep: Seq::<char>::empty(),
            footer: Seq::<char>::empty(),
            xml: false,
        },
        Formats::XML => ToksView {
            header: "<tasks>"@,
            rec_open: "<task><id>"@,
            id_to_name: "</id><name>"@,
            name_to_desc: "</name><description>"@,
            desc_to_flag: "</description><completed>"@,
            rec_close: "</completed></task>"@,
            sep: Seq::<char>::empty(),
            footer: "</tasks>"@,
            xml: true,
        },
    }
}

/// The canonical encoding of a store value in a format.
pub open spec fn enc_store_fmt(v: Seq<(usize, TaskView)>, f: Formats) -> Seq<char> {
    enc_store(v, fmt_toks(f))
}

/// Builds the run-time token table of a format.
pub fn make_toks(format: Formats) -> (t: Toks)
    ensures
        t@ == fmt_toks(format),
        toks_wf(t@),
{
    match format {
        Formats::JSON => {
            let t = Toks {
                header: string_to_chars("{\"tasks\":["),
                rec_open: string_to_chars("{\"id\":"),
                id_to_name: string_to_chars(",\"name\":\""),
                name_to_desc: string_to_chars("\",\"description\":\""),
                desc_to_flag: string_to_chars("\",\"completed\":"),
                rec_close: string_to_chars("}"),
                sep: string_to_chars(","),
                footer: string_to_chars("]}"),
                xml: false,
            };
            proof {
                reveal_strlit(",\"name\":\"");
                reveal_strlit("\",\"description\":\"");
                reveal_strlit("\",\"completed\":");
                assert(t@ =~= fmt_toks(format));
            }
            t
        },
        Formats::TOML => {
            let t = Toks {
                header: Vec::new(),
                rec_open: string_to_chars("[[tasks]]\nid = "),
                id_to_name: string_to_chars("\nname = \""),
                name_to_desc: string_to_chars("\"\ndescription = \""),
                desc_to_flag: string_to_chars("\"\ncompleted = "),
                rec_close: string_to_chars("\n"),
                sep: Vec::new(),
                footer: Vec::new(),
                xml: false,
            };
            proof {
                reveal_strlit("\nname = \"");
                reveal_strlit("\"\ndescription = \"");
                reveal_strlit("\"\ncompleted = ");
                assert(t@ =~= fmt_toks(format));
            }
            t
        },
        Formats::YAML => {
            let t = Toks {
                header: string_to_chars("tasks:\n"),
                rec_open: string_to_chars("- id: "),
                id_to_name: string_to_chars("\n  name: \""),
                name_to_desc: string_to_chars("\"\n  description: \""),
                desc_to_flag: string_to_chars("\"\n  completed: "),
                rec_close: string_to_chars("\n"),
                sep: Vec::new(),
                footer: Vec::new(),
                xml: false,
            };
            proof {
                reveal_strlit("\n  name: \"");
                reveal_strlit("\"\n  description: \"");
                reveal_strlit("\"\n  completed: ");
                assert(t@ =~= fmt_toks(format));
            }
            t
        },
        Formats::XML => {
            let t = Toks {
                header: string_to_chars("<tasks>"),
                rec_open: string_to_chars("<task><id>"),
                id_to_name: string_to_chars("</id><name>"),
                name_to_desc: string_to_chars("</name><description>"),
                desc_to_flag: string_to_chars("</description><completed>"),
                rec_close: string_to_chars("</completed></task>"),
                sep: Vec::new(),
                footer: string_to_chars("</tasks>"),
                xml: true,
            };
            proof {
                reveal_strlit("</id><name>");
                reveal_strlit("</name><description>");
                reveal_strlit("</description><completed>");
                assert(t@ =~= fmt_toks(format));
            }
            t
        },
    }
}

} // verus!
