//! The generic record codec behind every supported format. A format is a
//! table of literal tokens wrapped around the same record layout — an
//! identifier, a name, a description and a completion flag — plus the choice
//! of escaping style. One encoder and one parser serve all formats; each
//! format module only supplies its token table.

use vstd::prelude::*;

use crate::chars::{
    dec_digits, digit_run_end, digits_val, is_digit_char, lemma_dec_digits, lemma_digit_run_of,
    lemma_skip_concat,
};
use crate::escape::{esc_term, esc_text, payload_shape};
use crate::task::{Task, TaskView};
use crate::tasks::entries_view;

verus! {

/// The literal tokens of one format, in the order they appear around a
/// record, plus the escaping style of its string payloads.
pub struct Toks {
    pub header: Vec<char>,
    pub rec_open: Vec<char>,
    pub id_to_name: Vec<char>,
    pub name_to_desc: Vec<char>,
    pub desc_to_flag: Vec<char>,
    pub rec_close: Vec<char>,
    pub sep: Vec<char>,
    pub footer: Vec<char>,
    pub xml: bool,
}

/// The mathematical value of a token table.
#[verifier::ext_equal]
pub ghost struct ToksView {
    pub header: Seq<char>,
    pub rec_open: Seq<char>,
    pub id_to_name: Seq<char>,
    pub name_to_desc: Seq<char>,
    pub desc_to_flag: Seq<char>,
    pub rec_close: Seq<char>,
    pub sep: Seq<char>,
    pub footer: Seq<char>,
    pub xml: bool,
}

impl View for Toks {
    type V = ToksView;

    open spec fn view(&self) -> ToksView {
        ToksView {
            header: self.header@,
            rec_open: self.rec_open@,
            id_to_name: self.id_to_name@,
            name_to_desc: self.name_to_desc@,
            desc_to_flag: self.desc_to_flag@,
            rec_close: self.rec_close@,
            sep: self.sep@,
            footer: self.footer@,
            xml: self.xml,
        }
    }
}

/// What the parser needs of a token table: the token after the identifier
/// cannot be mistaken for another digit, and the tokens after the two string
/// payloads begin with the payload terminator of the escaping style.
pub open spec fn toks_wf(t: ToksView) -> bool {
    &&& t.id_to_name.len() > 0 && !is_digit_char(t.id_to_name[0])
    &&& t.name_to_desc.len() > 0 && t.name_to_desc[0] == esc_term(t.xml)
    &&& t.desc_to_flag.len() > 0 && t.desc_to_flag[0] == esc_term(t.xml)
}

/// The text of a completion flag.
pub open spec fn bool_text(b: bool) -> Seq<char> {
    if b {
        "true"@
    } else {
        "false"@
    }
}

/// The text that precedes a record: nothing for the first record, the
/// separator for every later one.
pub open spec fn pre_text(first: bool, t: ToksView) -> Seq<char> {
    if first {
        Seq::<char>::empty()
    } else {
        t.sep
    }
}

/// The encoding of one record.
pub open spec fn enc_rec(e: (usize, TaskView), t: ToksView) -> Seq<char> {
    t.rec_open + dec_digits(e.0 as int) + t.id_to_name + esc_text(e.1.name, t.xml) + t.name_to_desc
        + esc_text(e.1.description, t.xml) + t.desc_to_flag + bool_text(e.1.completed)
        + t.rec_close
}

/// The encoding of a run of records, separated by the separator token.
pub open spec fn enc_recs(v: Seq<(usize, TaskView)>, first: bool, t: ToksView) -> Seq<char>
    decreases v.len(),
{
    if v.len() == 0 {
        Seq::<char>::empty()
    } else {
        pre_text(first, t) + enc_rec(v[0], t) + enc_recs(v.drop_first(), false, t)
    }
}

/// The encoding of a whole store value.
pub open spec fn enc_store(v: Seq<(usize, TaskView)>, t: ToksView) -> Seq<char> {
    t.header + enc_recs(v, true, t) + t.footer
}

/// Encoding distributes over appending one record at the end.
pub proof fn lemma_enc_recs_snoc(
    v: Seq<(usize, TaskView)>,
    e: (usize, TaskView),
    first: bool,
    t: ToksView,
)
    ensures
        enc_recs(v.push(e), first, t) == enc_recs(v, first, t) + pre_text(
            first && v.len() == 0,
            t,
        ) + enc_rec(e, t),
    decreases v.len(),
{
    if v.len() == 0 {
        assert(v.push(e)[0] == e);
        assert(v.push(e).drop_first() =~= Seq::<(usize, TaskView)>::empty());
        assert(enc_recs(Seq::<(usize, TaskView)>::empty(), false, t) =~= Seq::<char>::empty());
        assert(enc_recs(v.push(e), first, t) =~= enc_recs(v, first, t) + pre_text(first, t)
            + enc_rec(e, t));
    } else {
        assert(v.push(e)[0] == v[0]);
        assert(v.push(e).drop_first() =~= v.drop_first().push(e));
        lemma_enc_recs_snoc(v.drop_first(), e, false, t);
        assert(enc_recs(v.push(e), first, t) =~= enc_recs(v, first, t) + pre_text(false, t)
            + enc_rec(e, t));
    }
}

/// How the head record of a non-empty run is laid out in the input `s`
/// starting at position `i`: each token and payload occupies its own range,
/// and the rest of the run follows the record.
pub open spec fn rec_layout(
    s: Seq<char>,
    i: int,
    v: Seq<(usize, TaskView)>,
    first: bool,
    t: ToksView,
) -> bool {
    let e = v[0];
    let p1 = i + pre_text(first, t).len();
    let p2 = p1 + t.rec_open.len();
    let p3 = p2 + dec_digits(e.0 as int).len();
    let p4 = p3 + t.id_to_name.len();
    let p5 = p4 + esc_text(e.1.name, t.xml).len();
    let p6 = p5 + t.name_to_desc.len();
    let p7 = p6 + esc_text(e.1.description, t.xml).len();
    let p8 = p7 + t.desc_to_flag.len();
    let p9 = p8 + bool_text(e.1.completed).len();
    let p10 = p9 + t.rec_close.len();
    &&& p10 <= s.len()
    &&& s.subrange(i, p1) == pre_text(first, t)
    &&& s.subrange(p1, p2) == t.rec_open
    &&& s.subrange(p2, p3) == dec_digits(e.0 as int)
    &&& digit_run_end(s, p2) == p3
    &&& digits_val(s.subrange(p2, p3)) == e.0 as int
    &&& s.subrange(p3, p4) == t.id_to_name
    &&& payload_shape(s, p4, e.1.name, s.skip(p5), t.xml)
    &&& s.subrange(p5, p6) == t.name_to_desc
    &&& payload_shape(s, p6, e.1.description, s.skip(p7), t.xml)
    &&& s.subrange(p7, p8) == t.desc_to_flag
    &&& s.skip(p8) == bool_text(e.1.completed) + s.skip(p9)
    &&& s.subrange(p8, p9) == bool_text(e.1.completed)
    &&& s.subrange(p9, p10) == t.rec_close
    &&& s.skip(p10) == enc_recs(v.drop_first(), false, t) + t.footer
}

/// Concatenation of character sequences is associative.
pub proof fn lemma_concat_assoc(a: Seq<char>, b: Seq<char>, c: Seq<char>)
    ensures
        (a + b) + c == a + (b + c),
{
    assert((a + b) + c =~= a + (b + c));
}

/// A non-empty encoded run at `i` decomposes into the layout above.
pub proof fn lemma_rec_layout(
    s: Seq<char>,
    i: int,
    v: Seq<(usize, TaskView)>,
    first: bool,
    t: ToksView,
)
    requires
        0 <= i <= s.len(),
        toks_wf(t),
        v.len() > 0,
        s.skip(i) == enc_recs(v, first, t) + t.footer,
    ensures
        rec_layout(s, i, v, first, t),
{
    let e = v[0];
    let cont = enc_recs(v.drop_first(), false, t) + t.footer;
    let a1 = pre_text(first, t);
    let a2 = t.rec_open;
    let a3 = dec_digits(e.0 as int);
    let a4 = t.id_to_name;
    let a5 = esc_text(e.1.name, t.xml);
    let a6 = t.name_to_desc;
    let a7 = esc_text(e.1.description, t.xml);
    let a8 = t.desc_to_flag;
    let a9 = bool_text(e.1.completed);
    let a10 = t.rec_close;
    // Right-associated suffixes of the record, innermost first.
    let s10 = a10 + cont;
    let s9 = a9 + s10;
    let s8 = a8 + s9;
    let s7 = a7 + s8;
    let s6 = a6 + s7;
    let s5 = a5 + s6;
    let s4 = a4 + s5;
    let s3 = a3 + s4;
    let s2 = a2 + s3;
    // Rebracket the left-associated encoding into those suffixes, one
    // associativity step at a time.
    let cont0 = enc_recs(v.drop_first(), false, t);
    assert(enc_recs(v, first, t) == a1 + enc_rec(e, t) + cont0);
    lemma_concat_assoc(a1 + enc_rec(e, t), cont0, t.footer);
    lemma_concat_assoc(a1, enc_rec(e, t), cont);
    assert(s.skip(i) == a1 + (enc_rec(e, t) + cont));
    let x3 = a2 + a3;
    let x4 = x3 + a4;
    let x5 = x4 + a5;
    let x6 = x5 + a6;
    let x7 = x6 + a7;
    let x8 = x7 + a8;
    let x9 = x8 + a9;
    assert(enc_rec(e, t) == x9 + a10);
    lemma_concat_assoc(x9, a10, cont);
    lemma_concat_assoc(x8, a9, s10);
    lemma_concat_assoc(x7, a8, s9);
    lemma_concat_assoc(x6, a7, s8);
    lemma_concat_assoc(x5, a6, s7);
    lemma_concat_assoc(x4, a5, s6);
    lemma_concat_assoc(x3, a4, s5);
    lemma_concat_assoc(a2, a3, s4);
    assert(enc_rec(e, t) + cont == s2);
    let p1 = i + a1.len();
    lemma_skip_concat(s, i, a1, enc_rec(e, t) + cont);
    assert(s.skip(p1) == s2);
    let p2 = p1 + a2.len();
    lemma_skip_concat(s, p1, a2, s3);
    let p3 = p2 + a3.len();
    lemma_skip_concat(s, p2, a3, s4);
    let p4 = p3 + a4.len();
    lemma_skip_concat(s, p3, a4, s5);
    let p5 = p4 + a5.len();
    lemma_skip_concat(s, p4, a5, s6);
    let p6 = p5 + a6.len();
    lemma_skip_concat(s, p5, a6, s7);
    let p7 = p6 + a7.len();
    lemma_skip_concat(s, p6, a7, s8);
    let p8 = p7 + a8.len();
    lemma_skip_concat(s, p7, a8, s9);
    let p9 = p8 + a9.len();
    lemma_skip_concat(s, p8, a9, s10);
    let p10 = p9 + a10.len();
    lemma_skip_concat(s, p9, a10, cont);
    // The identifier digits form a full digit run: the next token starts
    // with a non-digit.
    lemma_dec_digits(e.0 as int);
    assert(s4[0] == a4[0]);
    lemma_digit_run_of(s, p2, a3, s4);
    // The two payloads are followed by their terminators.
    assert(payload_shape(s, p4, e.1.name, s.skip(p5), t.xml)) by {
        assert(s.skip(p4) =~= a5 + s.skip(p5));
        assert(s.skip(p5).len() > 0);
        assert(s.skip(p5)[0] == s[p5]);
        assert(s[p5] == s.subrange(p5, p6)[0]);
    }
    assert(payload_shape(s, p6, e.1.description, s.skip(p7), t.xml)) by {
        assert(s.skip(p6) =~= a7 + s.skip(p7));
        assert(s.skip(p7).len() > 0);
        assert(s.skip(p7)[0] == s[p7]);
        assert(s[p7] == s.subrange(p7, p8)[0]);
    }
    assert(s.skip(p8) =~= a9 + s.skip(p9));
}

/// A record is never empty: it holds at least one identifier digit.
pub proof fn lemma_enc_rec_len(e: (usize, TaskView), t: ToksView)
    ensures
        enc_rec(e, t).len() >= 1,
        enc_rec(e, t).len() >= dec_digits(e.0 as int).len(),
{
    lemma_dec_digits(e.0 as int);
}

/// Compares the characters from `i` against a literal token; on success the
/// position just past the token is returned.
pub fn expect(cs: &Vec<char>, i: usize, tok: &Vec<char>) -> (r: Option<usize>)
    requires
        i <= cs@.len(),
    ensures
        match r {
            Some(j) => (j as int) == i + tok@.len() && j <= cs@.len() && cs@.subrange(
                i as int,
                j as int,
            ) == tok@,
            None => !(i + tok@.len() <= cs@.len() && cs@.subrange(i as int, i + tok@.len())
                == tok@),
        },
{
    let tl = tok.len();
    let len = cs.len();
    if len - i < tl {
        return None;
    }
    let mut k: usize = 0;
    while k < tl
        invariant
            k <= tl,
            i + tl <= len,
            len == cs@.len(),
            tl == tok@.len(),
            forall|m: int| 0 <= m < k ==> cs@[i + m] == tok@[m],
        decreases tl - k,
    {
        if cs[i + k] != tok[k] {
            proof {
                assert(cs@.subrange(i as int, i + tok@.len())[k as int] == cs@[i + k]);
            }
            return None;
        }
        k = k + 1;
    }
    proof {
        assert(cs@.subrange(i as int, i + tok@.len()) =~= tok@);
    }
    Some(i + tl)
}

/// Reads a completion flag. Whenever the characters at `i` start with the
/// text of a flag, the read succeeds and returns that flag.
pub fn parse_bool(cs: &Vec<char>, i: usize) -> (r: Option<(bool, usize)>)
    requires
        i <= cs@.len(),
    ensures
        forall|b: bool, rest: Seq<char>|
            cs@.skip(i as int) == bool_text(b) + rest ==> (r matches Some(q) && q.0 == b && (
            q.1 as int) == i + bool_text(b).len() && q.1 <= cs@.len()),
        r matches Some(q) ==> i <= q.1 <= cs@.len(),
{
    let t = crate::chars::string_to_chars("true");
    let rt = expect(cs, i, &t);
    match rt {
        Some(j) => {
            proof {
                assert forall|b: bool, rest: Seq<char>|
                    cs@.skip(i as int) == bool_text(b) + rest implies b == true by {
                    if !b {
                        lemma_skip_concat(cs@, i as int, bool_text(b), rest);
                        reveal_strlit("true");
                        reveal_strlit("false");
                        assert(cs@.subrange(i as int, i + 5)[0] == cs@[i as int]);
                        assert(cs@.subrange(i as int, i + 4)[0] == cs@[i as int]);
                    }
                }
            }
            Some((true, j))
        },
        None => {
            let f = crate::chars::string_to_chars("false");
            match expect(cs, i, &f) {
                Some(j) => {
                    proof {
                        assert forall|b: bool, rest: Seq<char>|
                            cs@.skip(i as int) == bool_text(b) + rest implies b == false by {
                            if b {
                                lemma_skip_concat(cs@, i as int, bool_text(b), rest);
                            }
                        }
                    }
                    Some((false, j))
                },
                None => {
                    proof {
                        assert forall|b: bool, rest: Seq<char>|
                            !(cs@.skip(i as int) == bool_text(b) + rest) by {
                            if cs@.skip(i as int) == bool_text(b) + rest {
                                lemma_skip_concat(cs@, i as int, bool_text(b), rest);
                            }
                        }
                    }
                    None
                },
            }
        },
    }
}

/// The shape that the record parser recognises at `i`: an encoded run of
/// records (first or continuation position) followed by the footer, filling
/// the rest of the input.
pub open spec fn recs_shape(
    s: Seq<char>,
    i: int,
    v: Seq<(usize, TaskView)>,
    first: bool,
    t: ToksView,
) -> bool {
    s.skip(i) == enc_recs(v, first, t) + t.footer
}

/// Appends a literal token to `out`.
pub fn append_tok(out: &mut Vec<char>, tok: &Vec<char>)
    ensures
        final(out)@ == old(out)@ + tok@,
{
    let n = tok.len();
    let mut k: usize = 0;
    proof {
        assert(out@ =~= out@ + tok@.take(0));
    }
    while k < n
        invariant
            k <= n,
            n == tok@.len(),
            out@ == old(out)@ + tok@.take(k as int),
        decreases n - k,
    {
        out.push(tok[k]);
        proof {
            assert(tok@.take(k + 1) =~= tok@.take(k as int).push(tok@[k as int]));
            assert(out@ =~= old(out)@ + tok@.take(k + 1));
        }
        k = k + 1;
    }
    proof {
        assert(tok@.take(n as int) =~= tok@);
    }
}

/// Encodes a run of entries with the given token table: see `enc_store`.
pub fn encode_entries(entries: &Vec<(usize, Task)>, toks: &Toks) -> (out: Vec<char>)
    ensures
        out@ == enc_store(entries_view(entries@), toks@),
{
    let ghost gv = entries_view(entries@);
    let mut out: Vec<char> = Vec::new();
    append_tok(&mut out, &toks.header);
    proof {
        assert(enc_recs(gv.take(0), true, toks@) =~= Seq::<char>::empty()) by {
            assert(gv.take(0) =~= Seq::<(usize, TaskView)>::empty());
        }
        assert(out@ =~= toks@.header + enc_recs(gv.take(0), true, toks@));
    }
    let n = entries.len();
    let mut k: usize = 0;
    while k < n
        invariant
            k <= n,
            n == entries@.len(),
            gv == entries_view(entries@),
            out@ == toks@.header + enc_recs(gv.take(k as int), true, toks@),
        decreases n - k,
    {
        if k > 0 {
            append_tok(&mut out, &toks.sep);
        }
        let mut rec: Vec<char> = Vec::new();
        append_tok(&mut rec, &toks.rec_open);
        let mut digits = crate::chars::usize_to_chars(entries[k].0);
        rec.append(&mut digits);
        append_tok(&mut rec, &toks.id_to_name);
        let name_chars = crate::chars::string_to_chars(entries[k].1.name_str());
        crate::escape::esc_append(&mut rec, &name_chars, toks.xml);
        append_tok(&mut rec, &toks.name_to_desc);
        let desc_chars = crate::chars::string_to_chars(entries[k].1.description_str());
        crate::escape::esc_append(&mut rec, &desc_chars, toks.xml);
        append_tok(&mut rec, &toks.desc_to_flag);
        let mut flag = if entries[k].1.get_is_completed() {
            crate::chars::string_to_chars("true")
        } else {
            crate::chars::string_to_chars("false")
        };
        rec.append(&mut flag);
        append_tok(&mut rec, &toks.rec_close);
        proof {
            assert(gv[k as int] == (entries@[k as int].0, entries@[k as int].1@));
            assert(rec@ == enc_rec(gv[k as int], toks@));
        }
        out.append(&mut rec);
        proof {
            lemma_enc_recs_snoc(gv.take(k as int), gv[k as int], true, toks@);
            assert(gv.take(k + 1) =~= gv.take(k as int).push(gv[k as int]));
            assert(out@ =~= toks@.header + enc_recs(gv.take(k + 1), true, toks@));
        }
        k = k + 1;
    }
    proof {
        assert(gv.take(n as int) =~= gv);
    }
    append_tok(&mut out, &toks.footer);
    out
}

/// Reads a run of records through the end of the input, where the footer
/// stands. Whenever the characters from `i` on are an encoded run followed
/// by the footer, the read succeeds and returns exactly the run's entries.
pub fn parse_recs(cs: &Vec<char>, i: usize, first: bool, toks: &Toks) -> (r: Option<
    (Vec<(usize, Task)>, usize),
>)
    requires
        toks_wf(toks@),
        i <= cs@.len(),
    ensures
        forall|v: Seq<(usize, TaskView)>|
            recs_shape(cs@, i as int, v, first, toks@) ==> (r matches Some(q) && entries_view(
                q.0@,
            ) == v && q.1 == cs@.len()),
    decreases cs@.len() - i,
{
    let len = cs.len();
    let flen = toks.footer.len();
    if len - i == flen {
        // Only the footer fits here: an empty run ends, or nothing matches.
        match expect(cs, i, &toks.footer) {
            Some(_) => {
                proof {
                    assert(entries_view(Seq::<(usize, Task)>::empty()) =~= Seq::<
                        (usize, TaskView),
                    >::empty());
                    assert forall|v: Seq<(usize, TaskView)>|
                        recs_shape(cs@, i as int, v, first, toks@) implies v == Seq::<
                        (usize, TaskView),
                    >::empty() by {
                        if v.len() > 0 {
                            lemma_enc_rec_len(v[0], toks@);
                            assert(cs@.skip(i as int).len() == len - i);
                        } else {
                            assert(v =~= Seq::<(usize, TaskView)>::empty());
                        }
                    }
                }
                return Some((Vec::new(), len));
            },
            None => {
                proof {
                    assert forall|v: Seq<(usize, TaskView)>|
                        !recs_shape(cs@, i as int, v, first, toks@) by {
                        if recs_shape(cs@, i as int, v, first, toks@) {
                            if v.len() == 0 {
                                assert(enc_recs(v, first, toks@) =~= Seq::<char>::empty());
                                assert(cs@.skip(i as int) =~= toks@.footer + Seq::<char>::empty());
                                lemma_skip_concat(
                                    cs@,
                                    i as int,
                                    toks@.footer,
                                    Seq::<char>::empty(),
                                );
                            } else {
                                lemma_enc_rec_len(v[0], toks@);
                                assert(cs@.skip(i as int).len() == len - i);
                            }
                        }
                    }
                }
                return None;
            },
        }
    }
    // Anything else than exactly a footer remains, so a run here is
    // non-empty.
    proof {
        assert forall|v: Seq<(usize, TaskView)>|
            recs_shape(cs@, i as int, v, first, toks@) implies v.len() > 0 by {
            if v.len() == 0 {
                assert(enc_recs(v, first, toks@) =~= Seq::<char>::empty());
                assert(cs@.skip(i as int) =~= toks@.footer + Seq::<char>::empty());
                assert(cs@.skip(i as int).len() == len - i);
            }
        }
    }
    // The separator, before every record but the first.
    let j1: usize = if first {
        i
    } else {
        match expect(cs, i, &toks.sep) {
            None => {
                proof {
                    assert forall|v: Seq<(usize, TaskView)>|
                        !recs_shape(cs@, i as int, v, first, toks@) by {
                        if recs_shape(cs@, i as int, v, first, toks@) {
                            lemma_rec_layout(cs@, i as int, v, first, toks@);
                        }
                    }
                }
                return None;
            },
            Some(j) => j,
        }
    };
    proof {
        assert forall|v: Seq<(usize, TaskView)>|
            recs_shape(cs@, i as int, v, first, toks@) implies rec_layout(
            cs@,
            i as int,
            v,
            first,
            toks@,
        ) && (j1 as int) == i + pre_text(first, toks@).len() by {
            lemma_rec_layout(cs@, i as int, v, first, toks@);
        }
    }
    // The token that opens a record.
    let j2 = match expect(cs, j1, &toks.rec_open) {
        None => {
            proof {
                assert forall|v: Seq<(usize, TaskView)>|
                    !recs_shape(cs@, i as int, v, first, toks@) by {
                    if recs_shape(cs@, i as int, v, first, toks@) {
                        lemma_rec_layout(cs@, i as int, v, first, toks@);
                    }
                }
            }
            return None;
        },
        Some(j) => j,
    };
    // The identifier digits.
    let uint_res = crate::chars::parse_uint(cs, j2);
    proof {
        assert forall|v: Seq<(usize, TaskView)>|
            recs_shape(cs@, i as int, v, first, toks@) implies (uint_res matches Some(p) && (
        p.0 as int) == v[0].0 as int && (p.1 as int) == (j2 as int) + dec_digits(
            v[0].0 as int,
        ).len()) by {
            lemma_rec_layout(cs@, i as int, v, first, toks@);
            let e = v[0];
            let p2 = i + pre_text(first, toks@).len() + toks@.rec_open.len();
            let p3 = p2 + dec_digits(e.0 as int).len();
            assert((j2 as int) == p2);
            lemma_dec_digits(e.0 as int);
            assert(cs@[p2] == cs@.subrange(p2, p3)[0]);
            assert(digit_run_end(cs@, j2 as int) == p3);
            assert(digits_val(cs@.subrange(j2 as int, p3)) == e.0 as int);
        }
    }
    let (id, j3) = match uint_res {
        None => {
            proof {
                assert forall|v: Seq<(usize, TaskView)>|
                    !recs_shape(cs@, i as int, v, first, toks@) by {}
            }
            return None;
        },
        Some(p) => p,
    };
    // The token between identifier and name.
    let j4 = match expect(cs, j3, &toks.id_to_name) {
        None => {
            proof {
                assert forall|v: Seq<(usize, TaskView)>|
                    !recs_shape(cs@, i as int, v, first, toks@) by {
                    if recs_shape(cs@, i as int, v, first, toks@) {
                        lemma_rec_layout(cs@, i as int, v, first, toks@);
                    }
                }
            }
            return None;
        },
        Some(j) => j,
    };
    // The name payload.
    let name_res = crate::escape::scan_escaped(cs, j4, toks.xml);
    proof {
        assert forall|v: Seq<(usize, TaskView)>|
            recs_shape(cs@, i as int, v, first, toks@) implies (name_res matches Some(q) && q.0@
            == v[0].1.name && (q.1 as int) == (j4 as int) + esc_text(
            v[0].1.name,
            toks@.xml,
        ).len()) by {
            lemma_rec_layout(cs@, i as int, v, first, toks@);
            let e = v[0];
            let p4 = i + pre_text(first, toks@).len() + toks@.rec_open.len() + dec_digits(
                e.0 as int,
            ).len() + toks@.id_to_name.len();
            let p5 = p4 + esc_text(e.1.name, toks@.xml).len();
            assert((j4 as int) == p4);
            assert(payload_shape(cs@, j4 as int, e.1.name, cs@.skip(p5), toks@.xml));
        }
    }
    let (namev, j5) = match name_res {
        None => {
            proof {
                assert forall|v: Seq<(usize, TaskView)>|
                    !recs_shape(cs@, i as int, v, first, toks@) by {}
            }
            return None;
        },
        Some(p) => p,
    };
    // The token between name and description.
    let j6 = match expect(cs, j5, &toks.name_to_desc) {
        None => {
            proof {
                assert forall|v: Seq<(usize, TaskView)>|
                    !recs_shape(cs@, i as int, v, first, toks@) by {
                    if recs_shape(cs@, i as int, v, first, toks@) {
                        lemma_rec_layout(cs@, i as int, v, first, toks@);
                    }
                }
            }
            return None;
        },
        Some(j) => j,
    };
    // The description payload.
    let desc_res = crate::escape::scan_escaped(cs, j6, toks.xml);
    proof {
        assert forall|v: Seq<(usize, TaskView)>|
            recs_shape(cs@, i as int, v, first, toks@) implies (desc_res matches Some(q) && q.0@
            == v[0].1.description && (q.1 as int) == (j6 as int) + esc_text(
            v[0].1.description,
            toks@.xml,
        ).len()) by {
            lemma_rec_layout(cs@, i as int, v, first, toks@);
            let e = v[0];
            let p6 = i + pre_text(first, toks@).len() + toks@.rec_open.len() + dec_digits(
                e.0 as int,
            ).len() + toks@.id_to_name.len() + esc_text(e.1.name, toks@.xml).len()
                + toks@.name_to_desc.len();
            let p7 = p6 + esc_text(e.1.description, toks@.xml).len();
            assert((j6 as int) == p6);
            assert(payload_shape(cs@, j6 as int, e.1.description, cs@.skip(p7), toks@.xml));
        }
    }
    let (descv, j7) = match desc_res {
        None => {
            proof {
                assert forall|v: Seq<(usize, TaskView)>|
                    !recs_shape(cs@, i as int, v, first, toks@) by {}
            }
            return None;
        },
        Some(p) => p,
    };
    // The token between description and flag.
    let j8 = match expect(cs, j7, &toks.desc_to_flag) {
        None => {
            proof {
                assert forall|v: Seq<(usize, TaskView)>|
                    !recs_shape(cs@, i as int, v, first, toks@) by {
                    if recs_shape(cs@, i as int, v, first, toks@) {
                        lemma_rec_layout(cs@, i as int, v, first, toks@);
                    }
                }
            }
            return None;
        },
        Some(j) => j,
    };
    // The completion flag.
    let bool_res = parse_bool(cs, j8);
    proof {
        assert forall|v: Seq<(usize, TaskView)>|
            recs_shape(cs@, i as int, v, first, toks@) implies (bool_res matches Some(q) && q.0
            == v[0].1.completed && (q.1 as int) == (j8 as int) + bool_text(
            v[0].1.completed,
        ).len()) by {
            lemma_rec_layout(cs@, i as int, v, first, toks@);
            let e = v[0];
            let p8 = i + pre_text(first, toks@).len() + toks@.rec_open.len() + dec_digits(
                e.0 as int,
            ).len() + toks@.id_to_name.len() + esc_text(e.1.name, toks@.xml).len()
                + toks@.name_to_desc.len() + esc_text(e.1.description, toks@.xml).len()
                + toks@.desc_to_flag.len();
            let p9 = p8 + bool_text(e.1.completed).len();
            assert((j8 as int) == p8);
            assert(cs@.skip(j8 as int) == bool_text(e.1.completed) + cs@.skip(p9));
        }
    }
    let (b, j9) = match bool_res {
        None => {
            proof {
                assert forall|v: Seq<(usize, TaskView)>|
                    !recs_shape(cs@, i as int, v, first, toks@) by {}
            }
            return None;
        },
        Some(p) => p,
    };
    // The token that closes a record.
    let j10 = match expect(cs, j9, &toks.rec_close) {
        None => {
            proof {
                assert forall|v: Seq<(usize, TaskView)>|
                    !recs_shape(cs@, i as int, v, first, toks@) by {
                    if recs_shape(cs@, i as int, v, first, toks@) {
                        lemma_rec_layout(cs@, i as int, v, first, toks@);
                    }
                }
            }
            return None;
        },
        Some(j) => j,
    };
    proof {
        assert forall|v: Seq<(usize, TaskView)>|
            recs_shape(cs@, i as int, v, first, toks@) implies recs_shape(
            cs@,
            j10 as int,
            v.drop_first(),
            false,
            toks@,
        ) by {
            lemma_rec_layout(cs@, i as int, v, first, toks@);
        }
        assert(j10 > i);
    }
    // The rest of the run.
    match parse_recs(cs, j10, false, toks) {
        None => {
            proof {
                assert forall|v: Seq<(usize, TaskView)>|
                    !recs_shape(cs@, i as int, v, first, toks@) by {
                    if recs_shape(cs@, i as int, v, first, toks@) {
                        assert(recs_shape(cs@, j10 as int, v.drop_first(), false, toks@));
                    }
                }
            }
            None
        },
        Some((tail, end)) => {
            let name_s = crate::chars::chars_to_string(&namev);
            let desc_s = crate::chars::chars_to_string(&descv);
            let mut task = Task::new(name_s, desc_s);
            if b {
                task.toggle_completed();
            }
            let ghost tview = task@;
            let ghost tailv = tail@;
            let mut res = tail;
            res.insert(0, (id, task));
            proof {
                assert forall|v: Seq<(usize, TaskView)>|
                    recs_shape(cs@, i as int, v, first, toks@) implies (entries_view(res@) == v
                    && end == cs@.len()) by {
                    assert(recs_shape(cs@, j10 as int, v.drop_first(), false, toks@));
                    assert(entries_view(tailv) == v.drop_first());
                    assert(tview =~= v[0].1);
                    assert(entries_view(res@) =~= v) by {
                        assert forall|m: int| 0 <= m < res@.len() implies entries_view(res@)[m]
                            == v[m] by {
                            if m == 0 {
                                assert(res@[0].0 == id && res@[0].1@ == tview);
                                assert(entries_view(res@)[0] == (id, tview));
                                assert(v[0] == (v[0].0, v[0].1));
                            } else {
                                assert(res@[m] == tailv[m - 1]);
                                assert(entries_view(res@)[m] == entries_view(tailv)[m - 1]);
                                assert(entries_view(tailv)[m - 1] == v.drop_first()[m - 1]);
                            }
                        }
                    }
                }
            }
            Some((res, end))
        },
    }
}

/// Decodes a whole encoded store: the header, a run of records, the footer.
/// Whenever the input is the encoding of some store value, the decode
/// succeeds and returns exactly that value's entries.
pub fn decode_entries(cs: &Vec<char>, toks: &Toks) -> (r: Option<Vec<(usize, Task)>>)
    requires
        toks_wf(toks@),
    ensures
        forall|v: Seq<(usize, TaskView)>|
            cs@ == enc_store(v, toks@) ==> (r matches Some(ents) && entries_view(ents@) == v),
{
    match expect(cs, 0, &toks.header) {
        None => {
            proof {
                assert forall|v: Seq<(usize, TaskView)>| !(cs@ == enc_store(v, toks@)) by {
                    if cs@ == enc_store(v, toks@) {
                        lemma_concat_assoc(toks@.header, enc_recs(v, true, toks@), toks@.footer);
                        assert(cs@.skip(0) =~= cs@);
                        lemma_skip_concat(
                            cs@,
                            0,
                            toks@.header,
                            enc_recs(v, true, toks@) + toks@.footer,
                        );
                    }
                }
            }
            None
        },
        Some(j) => {
            proof {
                assert forall|v: Seq<(usize, TaskView)>|
                    cs@ == enc_store(v, toks@) implies recs_shape(cs@, j as int, v, true, toks@) by {
                    lemma_concat_assoc(toks@.header, enc_recs(v, true, toks@), toks@.footer);
                    assert(cs@.skip(0) =~= cs@);
                    lemma_skip_concat(
                        cs@,
                        0,
                        toks@.header,
                        enc_recs(v, true, toks@) + toks@.footer,
                    );
                }
            }
            match parse_recs(cs, j, true, toks) {
                None => {
                    proof {
                        assert forall|v: Seq<(usize, TaskView)>| !(cs@ == enc_store(v, toks@)) by {
                            if cs@ == enc_store(v, toks@) {
                                assert(recs_shape(cs@, j as int, v, true, toks@));
                            }
                        }
                    }
                    None
                },
                Some((ents, _end)) => {
                    proof {
                        assert forall|v: Seq<(usize, TaskView)>|
                            cs@ == enc_store(v, toks@) implies entries_view(ents@) == v by {
                            assert(recs_shape(cs@, j as int, v, true, toks@));
                        }
                    }
                    Some(ents)
                },
            }
        },
    }
}

} // verus!
