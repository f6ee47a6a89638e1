use vstd::prelude::*;
use vstd::string::StrSliceExecFns;

verus! {

/// The lowercase hexadecimal digit character for `d` (meaningful for
/// `d < 16`).
pub open spec fn hex_char(d: nat) -> char {
    if d < 10 {
        ((0x30 + d) as u8) as char
    } else {
        ((0x61 + (d - 10)) as u8) as char
    }
}

/// Whether `c` is a lowercase hexadecimal digit character.
pub open spec fn is_hex_lower(c: char) -> bool {
    0x30 <= c as u32 <= 0x39 || 0x61 <= c as u32 <= 0x66
}

/// The value of the lowercase hexadecimal digit character `c`.
pub open spec fn hex_val(c: char) -> nat {
    if c as u32 <= 0x39 {
        (c as u32 - 0x30) as nat
    } else {
        (c as u32 - 0x61 + 10) as nat
    }
}

proof fn lemma_hex_char_val(d: nat)
    requires
        d < 16,
    ensures
        is_hex_lower(hex_char(d)),
        hex_val(hex_char(d)) == d,
{
}

/// How one character is written inside a JSON string literal: quote and
/// backslash get a backslash escape, control characters a lowercase
/// `\u00..` escape, and everything else stands for itself.
pub open spec fn esc_char(c: char) -> Seq<char> {
    if c == '"' {
        seq!['\\', '"']
    } else if c == '\\' {
        seq!['\\', '\\']
    } else if (c as u32) < 0x20 {
        seq!['\\', 'u', '0', '0', hex_char((c as u32 / 16) as nat), hex_char((c as u32 % 16) as nat)]
    } else {
        seq![c]
    }
}

/// The body of the JSON string literal that denotes `s`.
pub open spec fn escape_chars(s: Seq<char>) -> Seq<char>
    decreases s.len(),
{
    if s.len() == 0 {
        Seq::empty()
    } else {
        esc_char(s[0]) + escape_chars(s.drop_first())
    }
}

pub proof fn lemma_escape_push(s: Seq<char>, c: char)
    ensures
        escape_chars(s.push(c)) == escape_chars(s) + esc_char(c),
    decreases s.len(),
{
    if s.len() == 0 {
        assert(s.push(c)[0] == c);
        assert(s.push(c).drop_first() =~= Seq::<char>::empty());
        assert(escape_chars(s.push(c)) =~= escape_chars(s) + esc_char(c));
    } else {
        assert(s.push(c)[0] == s[0]);
        assert(s.push(c).drop_first() =~= s.drop_first().push(c));
        lemma_escape_push(s.drop_first(), c);
        assert(escape_chars(s.push(c)) == esc_char(s[0]) + escape_chars(s.push(c).drop_first()));
        assert(escape_chars(s) == esc_char(s[0]) + escape_chars(s.drop_first()));
        assert(esc_char(s[0]) + (escape_chars(s.drop_first()) + esc_char(c)) =~= (esc_char(s[0])
            + escape_chars(s.drop_first())) + esc_char(c));
        assert(escape_chars(s.push(c)) =~= escape_chars(s) + esc_char(c));
    }
}

fn hex_char_exec(d: u8) -> (c: char)
    requires
        d < 16,
    ensures
        c == hex_char(d as nat),
{
    if d < 10 {
        (0x30 + d) as char
    } else {
        (0x61 + (d - 10)) as char
    }
}

/// Write `s` as the body of a JSON string literal.
pub fn escape_json(s: &str) -> (r: String)
    ensures
        r@ == escape_chars(s@),
{
    let n = s.unicode_len();
    let mut r = String::new();
    let mut i: usize = 0;
    while i < n
        invariant
            n == s@.len(),
            0 <= i <= n,
            r@ == escape_chars(s@.take(i as int)),
        decreases n - i,
    {
        let c = s.get_char(i);
        let u = c as u32;
        if c == '"' {
            r.push('\\');
            r.push('"');
        } else if c == '\\' {
            r.push('\\');
            r.push('\\');
        } else if u < 0x20 {
            r.push('\\');
            r.push('u');
            r.push('0');
            r.push('0');
            r.push(hex_char_exec((u / 16) as u8));
            r.push(hex_char_exec((u % 16) as u8));
        } else {
            r.push(c);
        }
        proof {
            assert(s@.take(i + 1) =~= s@.take(i as int).push(s@[i as int]));
            lemma_escape_push(s@.take(i as int), s@[i as int]);
            assert(r@ =~= escape_chars(s@.take(i + 1)));
        }
        i += 1;
    }
    proof {
        assert(s@.take(n as int) =~= s@);
    }
    r
}

/// Read one JSON string literal body from the front of `t`, up to and
/// including the closing quote. The result is the denoted character
/// sequence and the number of characters consumed. Only the canonical
/// escapes that [`escape_chars`] writes are accepted.
pub open spec fn unescape_prefix(t: Seq<char>) -> Option<(Seq<char>, int)>
    decreases t.len(),
{
    if t.len() == 0 {
        None
    } else if t[0] == '"' {
        Some((Seq::empty(), 1))
    } else if t[0] == '\\' {
        if t.len() < 2 {
            None
        } else if t[1] == '"' || t[1] == '\\' {
            match unescape_prefix(t.skip(2)) {
                Some((s, e)) => Some((seq![t[1]] + s, e + 2)),
                None => None,
            }
        } else if t[1] == 'u' {
            if t.len() < 6 {
                None
            } else if t[2] == '0' && t[3] == '0' && is_hex_lower(t[4]) && is_hex_lower(t[5])
                && 16 * hex_val(t[4]) + hex_val(t[5]) < 0x20 {
                match unescape_prefix(t.skip(6)) {
                    Some((s, e)) => Some(
                        (seq![(((16 * hex_val(t[4]) + hex_val(t[5])) as u8) as char)] + s, e + 6),
                    ),
                    None => None,
                }
            } else {
                None
            }
        } else {
            None
        }
    } else if (t[0] as u32) >= 0x20 {
        match unescape_prefix(t.skip(1)) {
            Some((s, e)) => Some((seq![t[0]] + s, e + 1)),
            None => None,
        }
    } else {
        None
    }
}

/// Reading back what [`escape_chars`] wrote, with a closing quote and
/// anything at all after it, recovers the original characters exactly and
/// stops at that quote.
pub proof fn lemma_unescape_complete(s: Seq<char>, rest: Seq<char>)
    ensures
        unescape_prefix(escape_chars(s) + seq!['"'] + rest) == Some(
            (s, escape_chars(s).len() + 1 as int),
        ),
    decreases s.len(),
{
    let t = escape_chars(s) + seq!['"'] + rest;
    if s.len() == 0 {
        assert(t[0] == '"');
        assert(unescape_prefix(t) == Some((Seq::<char>::empty(), 1int)));
        assert(s =~= Seq::<char>::empty());
    } else {
        let c = s[0];
        let s2 = s.drop_first();
        assert(escape_chars(s) == esc_char(c) + escape_chars(s2));
        let t2 = escape_chars(s2) + seq!['"'] + rest;
        lemma_unescape_complete(s2, rest);
        if c == '"' {
            assert(t[0] == '\\' && t[1] == '"');
            assert(t.skip(2) =~= t2);
            assert(seq![t[1]] + s2 =~= s);
        } else if c == '\\' {
            assert(t[0] == '\\' && t[1] == '\\');
            assert(t.skip(2) =~= t2);
            assert(seq![t[1]] + s2 =~= s);
        } else if (c as u32) < 0x20 {
            let hi = (c as u32 / 16) as nat;
            let lo = (c as u32 % 16) as nat;
            assert(t[0] == '\\' && t[1] == 'u' && t[2] == '0' && t[3] == '0');
            assert(t[4] == hex_char(hi) && t[5] == hex_char(lo));
            lemma_hex_char_val(hi);
            lemma_hex_char_val(lo);
            assert(16 * hex_val(t[4]) + hex_val(t[5]) == c as u32) by {
                assert(16 * hi + lo == c as u32);
            }
            assert((((16 * hex_val(t[4]) + hex_val(t[5])) as u8) as char) == c) by {
                vstd::utf8::char_u32_cast(c, c as u32);
            }
            assert(t.skip(6) =~= t2);
            assert(seq![c] + s2 =~= s);
        } else {
            assert(t[0] == c);
            assert(t.skip(1) =~= t2);
            assert(seq![c] + s2 =~= s);
        }
    }
}

/// Whatever [`unescape_prefix`] accepts is, up to the characters it
/// consumed, exactly the canonical writing of its result followed by the
/// closing quote.
pub proof fn lemma_unescape_sound(t: Seq<char>)
    ensures
        unescape_prefix(t) matches Some((s, e)) ==> {
            &&& 1 <= e <= t.len()
            &&& t.take(e) == escape_chars(s) + seq!['"']
        },
    decreases t.len(),
{
    if unescape_prefix(t) is Some {
        let (s, e) = unescape_prefix(t)->Some_0;
        if t[0] == '"' {
            assert(t.take(1) =~= escape_chars(Seq::<char>::empty()) + seq!['"']);
        } else if t[0] == '\\' {
            if t[1] == '"' || t[1] == '\\' {
                lemma_unescape_sound(t.skip(2));
                let (s2, e2) = unescape_prefix(t.skip(2))->Some_0;
                assert(s == seq![t[1]] + s2 && e == e2 + 2);
                assert(escape_chars(s) == esc_char(s[0]) + escape_chars(s.drop_first()));
                assert(s.drop_first() =~= s2);
                assert(esc_char(t[1]) =~= seq!['\\', t[1]]);
                assert(t.take(e) =~= seq!['\\', t[1]] + t.skip(2).take(e2));
                assert(t.take(e) =~= escape_chars(s) + seq!['"']);
            } else {
                let v = 16 * hex_val(t[4]) + hex_val(t[5]);
                let c = ((v as u8) as char);
                lemma_unescape_sound(t.skip(6));
                let (s2, e2) = unescape_prefix(t.skip(6))->Some_0;
                assert(s == seq![c] + s2 && e == e2 + 6);
                assert(c as u32 == v) by {
                    vstd::utf8::char_u32_cast(c, c as u32);
                }
                assert(esc_char(c) =~= seq!['\\', 'u', '0', '0', hex_char((v / 16) as nat), hex_char((v % 16) as nat)]);
                assert(hex_char((v / 16) as nat) == t[4] && hex_char((v % 16) as nat) == t[5]) by {
                    assert(v / 16 == hex_val(t[4]) && v % 16 == hex_val(t[5])) by {
                        assert(hex_val(t[5]) < 16);
                    }
                    lemma_hex_roundtrip(t[4]);
                    lemma_hex_roundtrip(t[5]);
                }
                assert(escape_chars(s) == esc_char(s[0]) + escape_chars(s.drop_first()));
                assert(s.drop_first() =~= s2);
                assert(t.take(e) =~= seq!['\\', 'u', '0', '0', t[4], t[5]] + t.skip(6).take(e2));
                assert(t.take(e) =~= escape_chars(s) + seq!['"']);
            }
        } else {
            lemma_unescape_sound(t.skip(1));
            let (s2, e2) = unescape_prefix(t.skip(1))->Some_0;
            assert(s == seq![t[0]] + s2 && e == e2 + 1);
            assert(escape_chars(s) == esc_char(s[0]) + escape_chars(s.drop_first()));
            assert(s.drop_first() =~= s2);
            assert(esc_char(t[0]) =~= seq![t[0]]);
            assert(t.take(e) =~= seq![t[0]] + t.skip(1).take(e2));
            assert(t.take(e) =~= escape_chars(s) + seq!['"']);
        }
    }
}

proof fn lemma_hex_roundtrip(c: char)
    requires
        is_hex_lower(c),
    ensures
        hex_char(hex_val(c)) == c,
{
    vstd::utf8::char_u32_cast(c, c as u32);
}

fn hex_val_exec(c: char) -> (r: Option<u8>)
    ensures
        match r {
            Some(v) => is_hex_lower(c) && v as nat == hex_val(c) && v < 16,
            None => !is_hex_lower(c),
        },
{
    let u = c as u32;
    if 0x30 <= u && u <= 0x39 {
        Some((u - 0x30) as u8)
    } else if 0x61 <= u && u <= 0x66 {
        Some((u - 0x61 + 10) as u8)
    } else {
        None
    }
}

/// Read one JSON string literal body out of `msg`, starting at character
/// position `pos`, exactly as [`unescape_prefix`] describes; `end` points
/// one past the closing quote.
pub fn parse_json_string(msg: &str, pos: usize) -> (r: Option<(String, usize)>)
    requires
        pos <= msg@.len(),
    ensures
        match r {
            Some(v) => {
                &&& pos < v.1 <= msg@.len()
                &&& unescape_prefix(msg@.skip(pos as int)) == Some((v.0@, v.1 - pos as int))
            },
            None => unescape_prefix(msg@.skip(pos as int)) is None,
        },
{
    let n = msg.unicode_len();
    let mut acc = String::new();
    let mut i: usize = pos;
    loop
        invariant
            pos <= i <= n,
            n == msg@.len(),
            ({
                let full = unescape_prefix(msg@.skip(pos as int));
                match unescape_prefix(msg@.skip(i as int)) {
                    Some(p) => full == Some((acc@ + p.0, i - pos + p.1)),
                    None => full is None,
                }
            }),
        decreases n - i,
    {
        let ghost whole = msg@.skip(pos as int);
        let ghost t = msg@.skip(i as int);
        if i == n {
            proof {
                assert(t.len() == 0);
            }
            return None;
        }
        let c = msg.get_char(i);
        proof {
            assert(t[0] == msg@[i as int]);
        }
        if c == '"' {
            proof {
                assert(unescape_prefix(t) == Some((Seq::<char>::empty(), 1int)));
                assert(acc@ + Seq::<char>::empty() =~= acc@);
            }
            return Some((acc, i + 1));
        } else if c == '\\' {
            if i + 1 == n {
                proof {
                    assert(t.len() < 2);
                }
                return None;
            }
            let c2 = msg.get_char(i + 1);
            proof {
                assert(t[1] == msg@[i + 1]);
            }
            if c2 == '"' || c2 == '\\' {
                let ghost acc0 = acc@;
                acc.push(c2);
                proof {
                    assert(t.skip(2) =~= msg@.skip(i + 2));
                    if unescape_prefix(msg@.skip(i + 2)) is Some {
                        let p = unescape_prefix(msg@.skip(i + 2))->Some_0;
                        assert(unescape_prefix(t) == Some((seq![t[1]] + p.0, p.1 + 2)));
                        assert(acc@ + p.0 =~= acc0 + (seq![c2] + p.0));
                    } else {
                        assert(unescape_prefix(t) is None);
                    }
                }
                i = i + 2;
            } else if c2 == 'u' {
                if n - i < 6 {
                    proof {
                        assert(t.len() < 6);
                    }
                    return None;
                }
                let c3 = msg.get_char(i + 2);
                let c4 = msg.get_char(i + 3);
                let h1 = hex_val_exec(msg.get_char(i + 4));
                let h2 = hex_val_exec(msg.get_char(i + 5));
                proof {
                    assert(t[2] == msg@[i + 2] && t[3] == msg@[i + 3] && t[4] == msg@[i + 4]
                        && t[5] == msg@[i + 5]);
                }
                match (h1, h2) {
                    (Some(v1), Some(v2)) => {
                        if c3 == '0' && c4 == '0' && 16 * v1 + v2 < 0x20 {
                            let v: u8 = 16 * v1 + v2;
                            let dec: char = v as char;
                            let ghost acc0 = acc@;
                            acc.push(dec);
                            proof {
                                assert(16 * hex_val(t[4]) + hex_val(t[5]) < 0x20);
                                assert(t.skip(6) =~= msg@.skip(i + 6));
                                if unescape_prefix(msg@.skip(i + 6)) is Some {
                                    let p = unescape_prefix(msg@.skip(i + 6))->Some_0;
                                    assert(unescape_prefix(t) == Some((seq![dec] + p.0, p.1 + 6)));
                                    assert(acc@ + p.0 =~= acc0 + (seq![dec] + p.0));
                                } else {
                                    assert(unescape_prefix(t) is None);
                                }
                            }
                            i = i + 6;
                        } else {
                            proof {
                                assert(unescape_prefix(t) is None);
                            }
                            return None;
                        }
                    },
                    _ => {
                        proof {
                            assert(unescape_prefix(t) is None);
                        }
                        return None;
                    },
                }
            } else {
                proof {
                    assert(unescape_prefix(t) is None);
                }
                return None;
            }
        } else {
            let u = c as u32;
            if u < 0x20 {
                proof {
                    assert(unescape_prefix(t) is None);
                }
                return None;
            }
            let ghost acc0 = acc@;
            acc.push(c);
            proof {
                assert(t.skip(1) =~= msg@.skip(i + 1));
                if unescape_prefix(msg@.skip(i + 1)) is Some {
                    let p = unescape_prefix(msg@.skip(i + 1))->Some_0;
                    assert(unescape_prefix(t) == Some((seq![c] + p.0, p.1 + 1)));
                    assert(acc@ + p.0 =~= acc0 + (seq![c] + p.0));
                } else {
                    assert(unescape_prefix(t) is None);
                }
            }
            i = i + 1;
        }
    }
}

} // verus!
