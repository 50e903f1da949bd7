//! Text escaping for the two quoting styles the codec uses: backslash
//! escapes inside double-quoted strings (TOML, JSON, YAML) and character
//! entities inside XML element content. Each style comes with an exec
//! escaper, an exec scanner that reads an escaped payload back, and the
//! facts that make the two inverse to each other.

use vstd::prelude::*;

verus! {

/// The backslash-escaped expansion of one character.
pub open spec fn esc_char(c: char) -> Seq<char> {
    if c == '\\' {
        seq!['\\', '\\']
    } else if c == '"' {
        seq!['\\', '"']
    } else if c == '\n' {
        seq!['\\', 'n']
    } else if c == '\r' {
        seq!['\\', 'r']
    } else if c == '\t' {
        seq!['\\', 't']
    } else {
        seq![c]
    }
}

/// The entity expansion of one character in XML element content.
pub open spec fn xesc_char(c: char) -> Seq<char> {
    if c == '&' {
        seq!['&', 'a', 'm', 'p', ';']
    } else if c == '<' {
        seq!['&', 'l', 't', ';']
    } else if c == '>' {
        seq!['&', 'g', 't', ';']
    } else {
        seq![c]
    }
}

/// The expansion of one character in the chosen style.
pub open spec fn esc_char_text(c: char, xml: bool) -> Seq<char> {
    if xml {
        xesc_char(c)
    } else {
        esc_char(c)
    }
}

/// The escaped expansion of a text in the chosen style.
pub open spec fn esc_text(s: Seq<char>, xml: bool) -> Seq<char>
    decreases s.len(),
{
    if s.len() == 0 {
        Seq::<char>::empty()
    } else {
        esc_char_text(s[0], xml) + esc_text(s.drop_first(), xml)
    }
}

/// The character that ends an escaped payload in the chosen style: the
/// closing quote, or the `<` of the closing tag.
pub open spec fn esc_term(xml: bool) -> char {
    if xml {
        '<'
    } else {
        '"'
    }
}

/// The payload shape the scanner recognises at position `i`: an escaped
/// payload `p` followed by a remainder that starts with the terminator.
pub open spec fn payload_shape(s: Seq<char>, i: int, p: Seq<char>, rest: Seq<char>, xml: bool) -> bool {
    &&& s.skip(i) == esc_text(p, xml) + rest
    &&& rest.len() > 0
    &&& rest[0] == esc_term(xml)
}

/// Escaping distributes over extending the text by one character.
pub proof fn lemma_esc_snoc(s: Seq<char>, c: char, xml: bool)
    ensures
        esc_text(s.push(c), xml) == esc_text(s, xml) + esc_char_text(c, xml),
    decreases s.len(),
{
    if s.len() == 0 {
        assert(s.push(c).drop_first() =~= Seq::<char>::empty());
        assert(s.push(c)[0] == c);
        assert(esc_text(Seq::<char>::empty(), xml).len() == 0);
        assert(esc_text(s.push(c), xml) =~= esc_text(s, xml) + esc_char_text(c, xml));
    } else {
        assert(s.push(c)[0] == s[0]);
        assert(s.push(c).drop_first() =~= s.drop_first().push(c));
        lemma_esc_snoc(s.drop_first(), c, xml);
        assert(esc_text(s.push(c), xml) =~= esc_text(s, xml) + esc_char_text(c, xml));
    }
}

/// Appends the escaped expansion of `cs` to `out`.
pub fn esc_append(out: &mut Vec<char>, cs: &Vec<char>, xml: bool)
    ensures
        final(out)@ == old(out)@ + esc_text(cs@, xml),
{
    let n = cs.len();
    let mut i: usize = 0;
    proof {
        assert(cs@.take(0) =~= Seq::<char>::empty());
        assert(out@ =~= out@ + esc_text(cs@.take(0), xml));
    }
    while i < n
        invariant
            i <= n,
            n == cs@.len(),
            out@ == old(out)@ + esc_text(cs@.take(i as int), xml),
        decreases n - i,
    {
        let c = cs[i];
        if xml {
            if c == '&' {
                out.push('&');
                out.push('a');
                out.push('m');
                out.push('p');
                out.push(';');
            } else if c == '<' {
                out.push('&');
                out.push('l');
                out.push('t');
                out.push(';');
            } else if c == '>' {
                out.push('&');
                out.push('g');
                out.push('t');
                out.push(';');
            } else {
                out.push(c);
            }
        } else {
            if c == '\\' {
                out.push('\\');
                out.push('\\');
            } else if c == '"' {
                out.push('\\');
                out.push('"');
            } else if c == '\n' {
                out.push('\\');
                out.push('n');
            } else if c == '\r' {
                out.push('\\');
                out.push('r');
            } else if c == '\t' {
                out.push('\\');
                out.push('t');
            } else {
                out.push(c);
            }
        }
        proof {
            assert(out@ =~= old(out)@ + esc_text(cs@.take(i as int), xml) + esc_char_text(c, xml));
            assert(cs@.take(i + 1) =~= cs@.take(i as int).push(c));
            lemma_esc_snoc(cs@.take(i as int), c, xml);
            assert(out@ =~= old(out)@ + esc_text(cs@.take(i + 1), xml));
        }
        i = i + 1;
    }
    proof {
        assert(cs@.take(n as int) =~= cs@);
    }
}

/// From a non-empty payload shape at `i`: the expansion of the payload's
/// first character is laid out in the input starting at `i`, and the tail of
/// the payload forms a shape right after it.
proof fn lemma_head_shape(s: Seq<char>, i: int, p: Seq<char>, rest: Seq<char>, xml: bool)
    requires
        0 <= i <= s.len(),
        payload_shape(s, i, p, rest, xml),
        p.len() > 0,
    ensures
        ({
            let head = esc_char_text(p[0], xml);
            &&& i + head.len() <= s.len()
            &&& forall|k: int| 0 <= k < head.len() ==> s[i + k] == head[k]
            &&& payload_shape(s, i + head.len(), p.drop_first(), rest, xml)
            &&& esc_text(p, xml).len() == head.len() + esc_text(p.drop_first(), xml).len()
        }),
{
    let head = esc_char_text(p[0], xml);
    assert(esc_text(p, xml) == head + esc_text(p.drop_first(), xml));
    assert(esc_text(p, xml) + rest =~= head + (esc_text(p.drop_first(), xml) + rest));
    crate::chars::lemma_skip_concat(s, i, head, esc_text(p.drop_first(), xml) + rest);
    assert forall|k: int| 0 <= k < head.len() implies s[i + k] == head[k] by {
        assert(s.subrange(i, i + head.len())[k] == head[k]);
        assert(s.subrange(i, i + head.len())[k] == s[i + k]);
    }
}

/// Reads an escaped payload in the chosen style: the characters from `i` up
/// to (not including) the first unescaped terminator, unescaped. Whenever the
/// suffix at `i` is a well-formed expansion followed by the terminator, the
/// scan succeeds and returns exactly the expanded text and the position of
/// the terminator.
pub fn scan_escaped(cs: &Vec<char>, i: usize, xml: bool) -> (r: Option<(Vec<char>, usize)>)
    requires
        i <= cs@.len(),
    ensures
        forall|p: Seq<char>, rest: Seq<char>|
            payload_shape(cs@, i as int, p, rest, xml) ==> (r matches Some(q) && q.0@ == p && (
            q.1 as int) == i + esc_text(p, xml).len() && q.1 <= cs@.len()),
        r matches Some(q) ==> i <= q.1 <= cs@.len(),
    decreases cs@.len() - i,
{
    let len = cs.len();
    if i >= len {
        proof {
            assert forall|p: Seq<char>, rest: Seq<char>|
                !payload_shape(cs@, i as int, p, rest, xml) by {
                if payload_shape(cs@, i as int, p, rest, xml) {
                    assert(cs@.skip(i as int).len() == 0);
                    assert((esc_text(p, xml) + rest).len() > 0);
                }
            }
        }
        return None;
    }
    let c = cs[i];
    if !xml && c == '"' || xml && c == '<' {
        proof {
            assert forall|p: Seq<char>, rest: Seq<char>|
                payload_shape(cs@, i as int, p, rest, xml) implies p =~= Seq::<char>::empty()
                && esc_text(p, xml).len() == 0 by {
                if p.len() > 0 {
                    assert(cs@.skip(i as int)[0] == (esc_text(p, xml) + rest)[0]);
                    assert(cs@.skip(i as int)[0] == cs@[i as int]);
                    assert(esc_text(p, xml)[0] == esc_char_text(p[0], xml)[0]);
                }
            }
        }
        return Some((Vec::new(), i));
    }
    if !xml && c == '\\' {
        // A backslash escape: the next character selects the original.
        let within = i + 1 < len;
        let code = if within {
            cs[i + 1]
        } else {
            ' '
        };
        let decoded: Option<char> = if !within {
            None
        } else if code == '\\' {
            Some('\\')
        } else if code == '"' {
            Some('"')
        } else if code == 'n' {
            Some('\n')
        } else if code == 'r' {
            Some('\r')
        } else if code == 't' {
            Some('\t')
        } else {
            None
        };
        match decoded {
            None => {
                proof {
                    assert forall|p: Seq<char>, rest: Seq<char>|
                        !payload_shape(cs@, i as int, p, rest, xml) by {
                        if payload_shape(cs@, i as int, p, rest, xml) {
                            assert(cs@.skip(i as int)[0] == cs@[i as int]);
                            if p.len() == 0 {
                                assert(cs@[i as int] == rest[0]);
                            } else {
                                lemma_head_shape(cs@, i as int, p, rest, xml);
                                let head = esc_char_text(p[0], xml);
                                assert(cs@[i as int] == head[0]);
                                assert(p[0] == '\\' || p[0] == '"' || p[0] == '\n' || p[0] == '\r'
                                    || p[0] == '\t');
                                assert(head.len() == 2);
                                assert(cs@[i + 1] == head[1]);
                            }
                        }
                    }
                }
                return None;
            },
            Some(d) => {
                proof {
                    assert forall|p: Seq<char>, rest: Seq<char>|
                        payload_shape(cs@, i as int, p, rest, xml) implies p.len() > 0 && p[0] == d
                        && esc_char_text(p[0], xml).len() == 2 && payload_shape(
                        cs@,
                        i + 2,
                        p.drop_first(),
                        rest,
                        xml,
                    ) && esc_text(p, xml).len() == 2 + esc_text(p.drop_first(), xml).len() by {
                        assert(cs@.skip(i as int)[0] == cs@[i as int]);
                        if p.len() == 0 {
                            assert(cs@[i as int] == rest[0]);
                        }
                        lemma_head_shape(cs@, i as int, p, rest, xml);
                        let head = esc_char_text(p[0], xml);
                        assert(cs@[i as int] == head[0]);
                        assert(p[0] == '\\' || p[0] == '"' || p[0] == '\n' || p[0] == '\r' || p[0]
                            == '\t');
                        assert(head.len() == 2);
                        assert(cs@[i + 1] == head[1]);
                    }
                }
                let tail = scan_escaped(cs, i + 2, xml);
                match tail {
                    None => {
                        proof {
                            assert forall|p: Seq<char>, rest: Seq<char>|
                                !payload_shape(cs@, i as int, p, rest, xml) by {
                                if payload_shape(cs@, i as int, p, rest, xml) {
                                    assert(payload_shape(cs@, i + 2, p.drop_first(), rest, xml));
                                }
                            }
                        }
                        return None;
                    },
                    Some((mut v, j)) => {
                        proof {
                            assert forall|p: Seq<char>, rest: Seq<char>|
                                payload_shape(cs@, i as int, p, rest, xml) implies v@.insert(0, d)
                                == p && (j as int) == i + esc_text(p, xml).len() by {
                                assert(payload_shape(cs@, i + 2, p.drop_first(), rest, xml));
                                assert(v@ == p.drop_first());
                                assert(v@.insert(0, d) =~= seq![d] + p.drop_first());
                                assert(seq![d] + p.drop_first() =~= p);
                            }
                        }
                        v.insert(0, d);
                        return Some((v, j));
                    },
                }
            },
        }
    }
    if xml && c == '&' {
        // An entity: `&amp;`, `&lt;` or `&gt;`.
        let amp = len - i > 4 && cs[i + 1] == 'a' && cs[i + 2] == 'm' && cs[i + 3] == 'p' && cs[i
            + 4] == ';';
        let lt = len - i > 3 && cs[i + 1] == 'l' && cs[i + 2] == 't' && cs[i + 3] == ';';
        let gt = len - i > 3 && cs[i + 1] == 'g' && cs[i + 2] == 't' && cs[i + 3] == ';';
        if !amp && !lt && !gt {
            proof {
                assert forall|p: Seq<char>, rest: Seq<char>|
                    !payload_shape(cs@, i as int, p, rest, xml) by {
                    if payload_shape(cs@, i as int, p, rest, xml) {
                        assert(cs@.skip(i as int)[0] == cs@[i as int]);
                        if p.len() == 0 {
                            assert(cs@[i as int] == rest[0]);
                        } else {
                            lemma_head_shape(cs@, i as int, p, rest, xml);
                            let head = esc_char_text(p[0], xml);
                            assert(cs@[i as int] == head[0]);
                            assert(p[0] == '&' || p[0] == '<' || p[0] == '>');
                            assert(cs@[i + 1] == head[1]);
                            assert(cs@[i + 2] == head[2]);
                            assert(cs@[i + 3] == head[3]);
                            if p[0] == '&' {
                                assert(cs@[i + 4] == head[4]);
                            }
                        }
                    }
                }
            }
            return None;
        }
        let d: char = if amp {
            '&'
        } else if lt {
            '<'
        } else {
            '>'
        };
        let width: usize = if amp {
            5
        } else {
            4
        };
        proof {
            assert forall|p: Seq<char>, rest: Seq<char>|
                payload_shape(cs@, i as int, p, rest, xml) implies p.len() > 0 && p[0] == d
                && esc_char_text(p[0], xml).len() == width && payload_shape(
                cs@,
                i + width,
                p.drop_first(),
                rest,
                xml,
            ) && esc_text(p, xml).len() == width + esc_text(p.drop_first(), xml).len() by {
                assert(cs@.skip(i as int)[0] == cs@[i as int]);
                if p.len() == 0 {
                    assert(cs@[i as int] == rest[0]);
                }
                lemma_head_shape(cs@, i as int, p, rest, xml);
                let head = esc_char_text(p[0], xml);
                assert(cs@[i as int] == head[0]);
                assert(p[0] == '&' || p[0] == '<' || p[0] == '>');
                assert(cs@[i + 1] == head[1]);
                assert(cs@[i + 2] == head[2]);
                assert(cs@[i + 3] == head[3]);
                if p[0] == '&' {
                    assert(cs@[i + 4] == head[4]);
                }
            }
        }
        let tail = scan_escaped(cs, i + width, xml);
        match tail {
            None => {
                proof {
                    assert forall|p: Seq<char>, rest: Seq<char>|
                        !payload_shape(cs@, i as int, p, rest, xml) by {
                        if payload_shape(cs@, i as int, p, rest, xml) {
                            assert(payload_shape(cs@, i + width, p.drop_first(), rest, xml));
                        }
                    }
                }
                return None;
            },
            Some((mut v, j)) => {
                proof {
                    assert forall|p: Seq<char>, rest: Seq<char>|
                        payload_shape(cs@, i as int, p, rest, xml) implies v@.insert(0, d) == p && (
                    j as int) == i + esc_text(p, xml).len() by {
                        assert(payload_shape(cs@, i + width, p.drop_first(), rest, xml));
                        assert(v@ == p.drop_first());
                        assert(v@.insert(0, d) =~= seq![d] + p.drop_first());
                        assert(seq![d] + p.drop_first() =~= p);
                    }
                }
                v.insert(0, d);
                return Some((v, j));
            },
        }
    }
    // An ordinary character: it stands for itself.
    proof {
        assert forall|p: Seq<char>, rest: Seq<char>|
            payload_shape(cs@, i as int, p, rest, xml) implies p.len() > 0 && p[0] == c
            && esc_char_text(p[0], xml).len() == 1 && payload_shape(
            cs@,
            i + 1,
            p.drop_first(),
            rest,
            xml,
        ) && esc_text(p, xml).len() == 1 + esc_text(p.drop_first(), xml).len() by {
            assert(cs@.skip(i as int)[0] == cs@[i as int]);
            if p.len() == 0 {
                assert(cs@[i as int] == rest[0]);
            }
            lemma_head_shape(cs@, i as int, p, rest, xml);
            let head = esc_char_text(p[0], xml);
            assert(cs@[i as int] == head[0]);
        }
    }
    let tail = scan_escaped(cs, i + 1, xml);
    match tail {
        None => {
            proof {
                assert forall|p: Seq<char>, rest: Seq<char>|
                    !payload_shape(cs@, i as int, p, rest, xml) by {
                    if payload_shape(cs@, i as int, p, rest, xml) {
                        assert(payload_shape(cs@, i + 1, p.drop_first(), rest, xml));
                    }
                }
            }
            None
        },
        Some((mut v, j)) => {
            proof {
                assert forall|p: Seq<char>, rest: Seq<char>|
                    payload_shape(cs@, i as int, p, rest, xml) implies v@.insert(0, c) == p && (
                j as int) == i + esc_text(p, xml).len() by {
                    assert(payload_shape(cs@, i + 1, p.drop_first(), rest, xml));
                    assert(v@ == p.drop_first());
                    assert(v@.insert(0, c) =~= seq![c] + p.drop_first());
                    assert(seq![c] + p.drop_first() =~= p);
                }
            }
            v.insert(0, c);
            Some((v, j))
        },
    }
}

} // verus!
