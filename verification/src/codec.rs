//! The catalog codec: serializes a catalog to its fixed two-field JSON
//! document and parses such a document back. The wire format is exact:
//! `{"update":<string>,"ghostList":[<record>,...]}` with each record
//! carrying `directory`, `sakuraName` and `keroName` in that order. The
//! parser tolerates JSON white space between tokens and the standard string
//! escapes; the serializer emits the compact form with the minimal escapes.

use vstd::prelude::*;

use crate::ast::{GhostData, GhostDataView, GhostJson, GhostJsonView};

verus! {

/// The catalog document could not be parsed: malformed JSON, a missing
/// mandatory field, or fields out of their fixed order.
#[derive(PartialEq, Eq, Structural, Clone, Copy, Debug)]
pub struct ParseError;

/// JSON inter-token white space.
pub open spec fn is_ws(c: char) -> bool {
    c == ' ' || c == '\t' || c == '\n' || c == '\r'
}

/// First position at or after `i` holding no white space.
pub open spec fn skip_ws(s: Seq<char>, i: int) -> int
    decreases s.len() - i,
{
    if 0 <= i < s.len() && is_ws(s[i]) {
        skip_ws(s, i + 1)
    } else {
        i
    }
}

/// Value of a hexadecimal digit, or a negative number for any other
/// character.
pub open spec fn hex_val(c: char) -> int {
    let u = c as u32;
    if 48 <= u && u <= 57 {
        u - 48
    } else if 97 <= u && u <= 102 {
        u - 87
    } else if 65 <= u && u <= 70 {
        u - 55
    } else {
        -1
    }
}

/// The code point written by four hexadecimal digits at `i`.
pub open spec fn parse_hex4(s: Seq<char>, i: int) -> Option<int> {
    if 0 <= i && i + 4 <= s.len() && hex_val(s[i]) >= 0 && hex_val(s[i + 1]) >= 0 && hex_val(
        s[i + 2],
    ) >= 0 && hex_val(s[i + 3]) >= 0 {
        Some(4096 * hex_val(s[i]) + 256 * hex_val(s[i + 1]) + 16 * hex_val(s[i + 2]) + hex_val(
            s[i + 3],
        ))
    } else {
        None
    }
}

/// Whether a code point is a Unicode scalar value (no surrogates).
pub open spec fn is_scalar_code(v: int) -> bool {
    (0 <= v && v < 0xD800) || (0xE000 <= v && v <= 0x10FFFF)
}

/// The character written by a single-letter escape, if the letter is one.
pub open spec fn simple_unescape(c: char) -> Option<char> {
    if c == '"' {
        Some('"')
    } else if c == '\\' {
        Some('\\')
    } else if c == '/' {
        Some('/')
    } else if c == 'b' {
        Some('\u{8}')
    } else if c == 'f' {
        Some('\u{c}')
    } else if c == 'n' {
        Some('\n')
    } else if c == 'r' {
        Some('\r')
    } else if c == 't' {
        Some('\t')
    } else {
        None
    }
}

/// Parses a string body from position `i` (just after the opening quote) to
/// its closing quote: the decoded characters and the position after the
/// quote. Unescaped control characters, bad escapes, surrogate code points
/// and an unterminated string are failures.
pub open spec fn parse_string_body(s: Seq<char>, i: int) -> Option<(Seq<char>, int)>
    decreases s.len() - i,
{
    if !(0 <= i < s.len()) {
        None
    } else {
        let c = s[i];
        if c == '"' {
            Some((Seq::empty(), i + 1))
        } else if c == '\\' {
            if i + 1 < s.len() {
                let e = s[i + 1];
                if simple_unescape(e) is Some {
                    match parse_string_body(s, i + 2) {
                        Some(r) => Some((seq![simple_unescape(e)->0] + r.0, r.1)),
                        None => None,
                    }
                } else if e == 'u' {
                    match parse_hex4(s, i + 2) {
                        Some(v) => if is_scalar_code(v) {
                            match parse_string_body(s, i + 6) {
                                Some(r) => Some((seq![(v as u32) as char] + r.0, r.1)),
                                None => None,
                            }
                        } else {
                            None
                        },
                        None => None,
                    }
                } else {
                    None
                }
            } else {
                None
            }
        } else if (c as u32) < 0x20 {
            None
        } else {
            match parse_string_body(s, i + 1) {
                Some(r) => Some((seq![c] + r.0, r.1)),
                None => None,
            }
        }
    }
}

/// Parses a quoted string starting exactly at `i`.
pub open spec fn parse_string(s: Seq<char>, i: int) -> Option<(Seq<char>, int)> {
    if 0 <= i < s.len() && s[i] == '"' {
        parse_string_body(s, i + 1)
    } else {
        None
    }
}

/// The `update` key.
pub open spec fn update_key() -> Seq<char> {
    seq!['u', 'p', 'd', 'a', 't', 'e']
}

/// The `ghostList` key.
pub open spec fn ghost_list_key() -> Seq<char> {
    seq!['g', 'h', 'o', 's', 't', 'L', 'i', 's', 't']
}

/// The `directory` key.
pub open spec fn directory_key() -> Seq<char> {
    seq!['d', 'i', 'r', 'e', 'c', 't', 'o', 'r', 'y']
}

/// The `sakuraName` key.
pub open spec fn sakura_name_key() -> Seq<char> {
    seq!['s', 'a', 'k', 'u', 'r', 'a', 'N', 'a', 'm', 'e']
}

/// The `keroName` key.
pub open spec fn kero_name_key() -> Seq<char> {
    seq!['k', 'e', 'r', 'o', 'N', 'a', 'm', 'e']
}

/// Parses the given key and its colon starting exactly at `i`, returning
/// the position of the value.
pub open spec fn parse_key_colon(s: Seq<char>, i: int, key: Seq<char>) -> Option<int> {
    match parse_string(s, i) {
        None => None,
        Some(r) => if r.0 != key {
            None
        } else {
            let j = skip_ws(s, r.1);
            if 0 <= j < s.len() && s[j] == ':' {
                Some(skip_ws(s, j + 1))
            } else {
                None
            }
        },
    }
}

/// Parses a `"key":"value"` member whose value is a string.
pub open spec fn parse_member(s: Seq<char>, i: int, key: Seq<char>) -> Option<(Seq<char>, int)> {
    match parse_key_colon(s, i, key) {
        None => None,
        Some(j) => parse_string(s, j),
    }
}

/// Parses one record object starting exactly at `i`: the three members in
/// their fixed order, white space tolerated between tokens.
pub open spec fn parse_record(s: Seq<char>, i: int) -> Option<(GhostDataView, int)> {
    if !(0 <= i < s.len() && s[i] == '{') {
        None
    } else {
        match parse_member(s, skip_ws(s, i + 1), directory_key()) {
            None => None,
            Some(d) => {
                let j2 = skip_ws(s, d.1);
                if !(0 <= j2 < s.len() && s[j2] == ',') {
                    None
                } else {
                    match parse_member(s, skip_ws(s, j2 + 1), sakura_name_key()) {
                        None => None,
                        Some(sn) => {
                            let j5 = skip_ws(s, sn.1);
                            if !(0 <= j5 < s.len() && s[j5] == ',') {
                                None
                            } else {
                                match parse_member(s, skip_ws(s, j5 + 1), kero_name_key()) {
                                    None => None,
                                    Some(kn) => {
                                        let j8 = skip_ws(s, kn.1);
                                        if 0 <= j8 < s.len() && s[j8] == '}' {
                                            Some(
                                                (
                                                    GhostDataView {
                                                        directory: d.0,
                                                        sakura_name: sn.0,
                                                        kero_name: kn.0,
                                                    },
                                                    j8 + 1,
                                                ),
                                            )
                                        } else {
                                            None
                                        }
                                    },
                                }
                            }
                        },
                    }
                }
            },
        }
    }
}

/// Parses the rest of a record array after one record: either a closing
/// bracket, or a comma and a further record, repeatedly.
pub open spec fn parse_records_tail(s: Seq<char>, i: int) -> Option<(Seq<GhostDataView>, int)>
    decreases s.len() - i,
{
    if !(0 <= i <= s.len()) {
        None
    } else {
        let k = skip_ws(s, i);
        if !(i <= k < s.len()) {
            None
        } else if s[k] == ']' {
            Some((Seq::empty(), k + 1))
        } else if s[k] == ',' {
            match parse_record(s, skip_ws(s, k + 1)) {
                None => None,
                Some(r) => if k < r.1 && r.1 <= s.len() {
                    match parse_records_tail(s, r.1) {
                        None => None,
                        Some(rest) => Some((seq![r.0] + rest.0, rest.1)),
                    }
                } else {
                    None
                },
            }
        } else {
            None
        }
    }
}

/// Parses a record array starting exactly at `i`.
pub open spec fn parse_array(s: Seq<char>, i: int) -> Option<(Seq<GhostDataView>, int)> {
    if !(0 <= i < s.len() && s[i] == '[') {
        None
    } else {
        let k = skip_ws(s, i + 1);
        if !(0 <= k < s.len()) {
            None
        } else if s[k] == ']' {
            Some((Seq::empty(), k + 1))
        } else {
            match parse_record(s, k) {
                None => None,
                Some(r) => if i < r.1 && r.1 <= s.len() {
                    match parse_records_tail(s, r.1) {
                        None => None,
                        Some(rest) => Some((seq![r.0] + rest.0, rest.1)),
                    }
                } else {
                    None
                },
            }
        }
    }
}

/// Parses a whole catalog document: the two mandatory members in their
/// fixed order, and nothing but white space after the closing brace.
pub open spec fn parse_catalog_text(s: Seq<char>) -> Option<GhostJsonView> {
    let i0 = skip_ws(s, 0);
    if !(0 <= i0 < s.len() && s[i0] == '{') {
        None
    } else {
        match parse_member(s, skip_ws(s, i0 + 1), update_key()) {
            None => None,
            Some(u) => {
                let j1 = skip_ws(s, u.1);
                if !(0 <= j1 < s.len() && s[j1] == ',') {
                    None
                } else {
                    match parse_key_colon(s, skip_ws(s, j1 + 1), ghost_list_key()) {
                        None => None,
                        Some(j2) => match parse_array(s, j2) {
                            None => None,
                            Some(records) => {
                                let j3 = skip_ws(s, records.1);
                                if !(0 <= j3 < s.len() && s[j3] == '}') {
                                    None
                                } else if skip_ws(s, j3 + 1) == s.len() {
                                    Some(
                                        GhostJsonView { update: u.0, ghost_list: records.0 },
                                    )
                                } else {
                                    None
                                }
                            },
                        },
                    }
                }
            },
        }
    }
}

/// The lowercase hexadecimal digit for a value below sixteen.
pub open spec fn hex_char(d: int) -> char {
    if 0 <= d && d < 10 {
        ((48 + d) as u32) as char
    } else {
        ((87 + d) as u32) as char
    }
}

/// The characters one character serializes to inside a JSON string: quote
/// and backslash get a backslash escape, the five named control characters
/// their letter escapes, other control characters a four-digit escape, and
/// everything else stands as itself.
pub open spec fn esc_char(c: char) -> Seq<char> {
    let u = c as u32;
    if c == '"' {
        seq!['\\', '"']
    } else if c == '\\' {
        seq!['\\', '\\']
    } else if u == 8 {
        seq!['\\', 'b']
    } else if u == 9 {
        seq!['\\', 't']
    } else if u == 10 {
        seq!['\\', 'n']
    } else if u == 12 {
        seq!['\\', 'f']
    } else if u == 13 {
        seq!['\\', 'r']
    } else if u < 0x20 {
        seq!['\\', 'u', '0', '0', hex_char(u as int / 16), hex_char(u as int % 16)]
    } else {
        seq![c]
    }
}

/// The serialized body of a JSON string.
pub open spec fn esc_string(s: Seq<char>) -> Seq<char>
    decreases s.len(),
{
    if s.len() == 0 {
        Seq::empty()
    } else {
        esc_char(s[0]) + esc_string(s.drop_first())
    }
}

/// A serialized JSON string, quotes included.
pub open spec fn json_string(s: Seq<char>) -> Seq<char> {
    seq!['"'] + esc_string(s) + seq!['"']
}

/// One serialized record object, compact, fields in their fixed order.
pub open spec fn record_json(g: GhostDataView) -> Seq<char> {
    seq!['{'] + json_string(directory_key()) + seq![':'] + json_string(g.directory) + seq![',']
        + json_string(sakura_name_key()) + seq![':'] + json_string(g.sakura_name) + seq![',']
        + json_string(kero_name_key()) + seq![':'] + json_string(g.kero_name) + seq!['}']
}

/// The serialized tail of a record array: a comma before every further
/// record.
pub open spec fn records_tail_json(rs: Seq<GhostDataView>) -> Seq<char>
    decreases rs.len(),
{
    if rs.len() == 0 {
        Seq::empty()
    } else {
        seq![','] + record_json(rs[0]) + records_tail_json(rs.drop_first())
    }
}

/// The serialized records of an array, comma separated.
pub open spec fn records_json(rs: Seq<GhostDataView>) -> Seq<char> {
    if rs.len() == 0 {
        Seq::empty()
    } else {
        record_json(rs[0]) + records_tail_json(rs.drop_first())
    }
}

/// The serialized catalog document, compact.
pub open spec fn catalog_json(c: GhostJsonView) -> Seq<char> {
    seq!['{'] + json_string(update_key()) + seq![':'] + json_string(c.update) + seq![',']
        + json_string(ghost_list_key()) + seq![':'] + seq!['['] + records_json(c.ghost_list)
        + seq![']'] + seq!['}']
}

proof fn lemma_esc_string_snoc(s: Seq<char>, c: char)
    ensures
        esc_string(s.push(c)) == esc_string(s) + esc_char(c),
    decreases s.len(),
{
    if s.len() == 0 {
        assert(s.push(c)[0] == c);
        assert(s.push(c).drop_first() =~= Seq::<char>::empty());
        assert(esc_string(Seq::<char>::empty()) =~= Seq::<char>::empty());
        assert(esc_string(s.push(c)) =~= esc_string(s) + esc_char(c));
    } else {
        assert(s.push(c)[0] == s[0]);
        assert(s.push(c).drop_first() =~= s.drop_first().push(c));
        lemma_esc_string_snoc(s.drop_first(), c);
        assert(esc_string(s.push(c)) =~= esc_string(s) + esc_char(c));
    }
}

proof fn lemma_records_tail_json_snoc(rs: Seq<GhostDataView>, g: GhostDataView)
    ensures
        records_tail_json(rs.push(g)) == records_tail_json(rs) + seq![','] + record_json(g),
    decreases rs.len(),
{
    if rs.len() == 0 {
        assert(rs.push(g)[0] == g);
        assert(rs.push(g).drop_first() =~= Seq::<GhostDataView>::empty());
        assert(records_tail_json(Seq::<GhostDataView>::empty())
            =~= Seq::<char>::empty());
        assert(records_tail_json(rs.push(g)) =~= records_tail_json(rs) + seq![','] + record_json(
            g,
        ));
    } else {
        assert(rs.push(g)[0] == rs[0]);
        assert(rs.push(g).drop_first() =~= rs.drop_first().push(g));
        lemma_records_tail_json_snoc(rs.drop_first(), g);
        assert(records_tail_json(rs.push(g)) =~= records_tail_json(rs) + seq![','] + record_json(
            g,
        ));
    }
}

proof fn lemma_records_json_snoc(rs: Seq<GhostDataView>, g: GhostDataView)
    ensures
        rs.len() == 0 ==> records_json(rs.push(g)) == record_json(g),
        rs.len() > 0 ==> records_json(rs.push(g)) == records_json(rs) + seq![','] + record_json(g),
{
    if rs.len() == 0 {
        assert(rs.push(g)[0] == g);
        assert(rs.push(g).drop_first() =~= Seq::<GhostDataView>::empty());
        assert(records_json(rs.push(g)) =~= record_json(g));
    } else {
        assert(rs.push(g)[0] == rs[0]);
        assert(rs.push(g).drop_first() =~= rs.drop_first().push(g));
        lemma_records_tail_json_snoc(rs.drop_first(), g);
        assert(records_json(rs.push(g)) =~= records_json(rs) + seq![','] + record_json(g));
    }
}

fn hex_char_exec(d: u32) -> (r: char)
    requires
        d < 16,
    ensures
        r == hex_char(d as int),
{
    let code: u32 = if d < 10 {
        48 + d
    } else {
        87 + d
    };
    match crate::text::char_from_code(code) {
        Some(c) => {
            proof {
                vstd::utf8::char_u32_cast(c, c as u32);
            }
            c
        },
        None => {
            proof {
                assert(false);
            }
            '0'
        },
    }
}

/// Appends the serialized body of a JSON string.
fn push_escaped(out: &mut Vec<char>, s: &Vec<char>)
    ensures
        final(out)@ == old(out)@ + esc_string(s@),
{
    let mut i: usize = 0;
    proof {
        assert(out@ =~= old(out)@ + esc_string(s@.take(0)));
    }
    while i < s.len()
        invariant
            0 <= i <= s.len(),
            out@ == old(out)@ + esc_string(s@.take(i as int)),
        decreases s.len() - i,
    {
        let c = s[i];
        let ghost pre = out@;
        let u = c as u32;
        if c == '"' {
            out.push('\\');
            out.push('"');
        } else if c == '\\' {
            out.push('\\');
            out.push('\\');
        } else if u == 8 {
            out.push('\\');
            out.push('b');
        } else if u == 9 {
            out.push('\\');
            out.push('t');
        } else if u == 10 {
            out.push('\\');
            out.push('n');
        } else if u == 12 {
            out.push('\\');
            out.push('f');
        } else if u == 13 {
            out.push('\\');
            out.push('r');
        } else if u < 0x20 {
            out.push('\\');
            out.push('u');
            out.push('0');
            out.push('0');
            out.push(hex_char_exec(u / 16));
            out.push(hex_char_exec(u % 16));
        } else {
            out.push(c);
        }
        proof {
            assert(out@ =~= pre + esc_char(c));
            assert(s@.take(i as int + 1) =~= s@.take(i as int).push(c));
            lemma_esc_string_snoc(s@.take(i as int), c);
            assert(out@ =~= old(out)@ + esc_string(s@.take(i as int + 1)));
        }
        i = i + 1;
    }
    proof {
        assert(s@.take(s@.len() as int) =~= s@);
    }
}

/// Appends a serialized JSON string, quotes included.
fn push_json_string(out: &mut Vec<char>, s: &Vec<char>)
    ensures
        final(out)@ == old(out)@ + json_string(s@),
{
    out.push('"');
    push_escaped(out, s);
    out.push('"');
    proof {
        assert(out@ =~= old(out)@ + json_string(s@));
    }
}

/// Appends one serialized record object.
fn push_record_json(out: &mut Vec<char>, g: &GhostData)
    ensures
        final(out)@ == old(out)@ + record_json(g@),
{
    let dk: Vec<char> = vec!['d', 'i', 'r', 'e', 'c', 't', 'o', 'r', 'y'];
    let sk: Vec<char> = vec!['s', 'a', 'k', 'u', 'r', 'a', 'N', 'a', 'm', 'e'];
    let kk: Vec<char> = vec!['k', 'e', 'r', 'o', 'N', 'a', 'm', 'e'];
    proof {
        assert(dk@ =~= directory_key());
        assert(sk@ =~= sakura_name_key());
        assert(kk@ =~= kero_name_key());
    }
    out.push('{');
    push_json_string(out, &dk);
    out.push(':');
    let dv = crate::text::string_to_chars(g.directory().as_str());
    push_json_string(out, &dv);
    out.push(',');
    push_json_string(out, &sk);
    out.push(':');
    let sv = crate::text::string_to_chars(g.sakura_name().as_str());
    push_json_string(out, &sv);
    out.push(',');
    push_json_string(out, &kk);
    out.push(':');
    let kv = crate::text::string_to_chars(g.kero_name().as_str());
    push_json_string(out, &kv);
    out.push('}');
    proof {
        assert(out@ =~= old(out)@ + record_json(g@));
    }
}

/// Serializes a catalog to its compact two-field JSON document.
pub fn serialize_catalog(json: &GhostJson) -> (r: String)
    ensures
        r@ == catalog_json(json@),
{
    let uk: Vec<char> = vec!['u', 'p', 'd', 'a', 't', 'e'];
    let gk: Vec<char> = vec!['g', 'h', 'o', 's', 't', 'L', 'i', 's', 't'];
    proof {
        assert(uk@ =~= update_key());
        assert(gk@ =~= ghost_list_key());
    }
    let mut out: Vec<char> = Vec::new();
    out.push('{');
    push_json_string(&mut out, &uk);
    out.push(':');
    let uv = crate::text::string_to_chars(json.update().as_str());
    push_json_string(&mut out, &uv);
    out.push(',');
    push_json_string(&mut out, &gk);
    out.push(':');
    out.push('[');
    let ghost prefix = out@;
    let list = json.ghost_list();
    let ghost rv = list.deep_view();
    let mut i: usize = 0;
    proof {
        assert(out@ =~= prefix + records_json(rv.take(0)));
    }
    while i < list.len()
        invariant
            0 <= i <= list.len(),
            rv == list.deep_view(),
            out@ == prefix + records_json(rv.take(i as int)),
        decreases list.len() - i,
    {
        let ghost pre = out@;
        if i > 0 {
            out.push(',');
        }
        push_record_json(&mut out, &list[i]);
        proof {
            assert(rv.take(i as int + 1) =~= rv.take(i as int).push(rv[i as int]));
            assert(rv[i as int] == list[i as int]@);
            lemma_records_json_snoc(rv.take(i as int), rv[i as int]);
            assert(out@ =~= prefix + records_json(rv.take(i as int + 1)));
        }
        i = i + 1;
    }
    proof {
        assert(rv.take(list@.len() as int) =~= rv);
    }
    out.push(']');
    out.push('}');
    proof {
        assert(out@ =~= catalog_json(json@));
    }
    crate::text::chars_to_string(&out)
}

fn skip_ws_exec(s: &Vec<char>, i: usize) -> (r: usize)
    requires
        i <= s@.len(),
    ensures
        r as int == skip_ws(s@, i as int),
        i <= r <= s@.len(),
{
    let mut cur: usize = i;
    while cur < s.len() && (s[cur] == ' ' || s[cur] == '\t' || s[cur] == '\n' || s[cur] == '\r')
        invariant
            i <= cur <= s@.len(),
            skip_ws(s@, i as int) == skip_ws(s@, cur as int),
        decreases s@.len() - cur,
    {
        cur = cur + 1;
    }
    cur
}

fn hex_digit(c: char) -> (r: Option<u32>)
    ensures
        r matches Some(v) ==> hex_val(c) == v as int && v < 16,
        r is None ==> hex_val(c) < 0,
{
    let u = c as u32;
    if 48 <= u && u <= 57 {
        Some(u - 48)
    } else if 97 <= u && u <= 102 {
        Some(u - 87)
    } else if 65 <= u && u <= 70 {
        Some(u - 55)
    } else {
        None
    }
}

fn parse_hex4_exec(s: &Vec<char>, i: usize) -> (r: Option<u32>)
    requires
        i <= s@.len(),
    ensures
        r matches Some(v) ==> parse_hex4(s@, i as int) == Some(v as int) && i + 4 <= s@.len(),
        r is None ==> parse_hex4(s@, i as int) is None,
{
    if s.len() - i < 4 {
        return None;
    }
    let h0 = match hex_digit(s[i]) {
        Some(v) => v,
        None => {
            return None;
        },
    };
    let h1 = match hex_digit(s[i + 1]) {
        Some(v) => v,
        None => {
            return None;
        },
    };
    let h2 = match hex_digit(s[i + 2]) {
        Some(v) => v,
        None => {
            return None;
        },
    };
    let h3 = match hex_digit(s[i + 3]) {
        Some(v) => v,
        None => {
            return None;
        },
    };
    Some(4096 * h0 + 256 * h1 + 16 * h2 + h3)
}

fn parse_string_body_exec(s: &Vec<char>, i: usize) -> (r: Option<(Vec<char>, usize)>)
    requires
        i <= s@.len(),
    ensures
        r matches Some(p) ==> parse_string_body(s@, i as int) == Some((p.0@, p.1 as int)) && p.1
            <= s@.len(),
        r is None ==> parse_string_body(s@, i as int) is None,
{
    let mut acc: Vec<char> = Vec::new();
    let mut cur: usize = i;
    loop
        invariant
            i <= cur <= s@.len(),
            parse_string_body(s@, i as int) == (match parse_string_body(s@, cur as int) {
                Some(q) => Some((acc@ + q.0, q.1)),
                None => None::<(Seq<char>, int)>,
            }),
        decreases s@.len() - cur,
    {
        if cur >= s.len() {
            return None;
        }
        let c = s[cur];
        if c == '"' {
            proof {
                assert(acc@ + Seq::<char>::empty() =~= acc@);
            }
            return Some((acc, cur + 1));
        } else if c == '\\' {
            if cur + 1 >= s.len() {
                return None;
            }
            let e = s[cur + 1];
            let simple: Option<char> = if e == '"' {
                Some('"')
            } else if e == '\\' {
                Some('\\')
            } else if e == '/' {
                Some('/')
            } else if e == 'b' {
                Some('\u{8}')
            } else if e == 'f' {
                Some('\u{c}')
            } else if e == 'n' {
                Some('\n')
            } else if e == 'r' {
                Some('\r')
            } else if e == 't' {
                Some('\t')
            } else {
                None
            };
            match simple {
                Some(ch) => {
                    let ghost pre = acc@;
                    acc.push(ch);
                    proof {
                        let ghost next = parse_string_body(s@, cur as int + 2);
                        match next {
                            Some(q) => {
                                assert(acc@ + q.0 =~= pre + (seq![ch] + q.0));
                            },
                            None => {},
                        }
                    }
                    cur = cur + 2;
                },
                None => {
                    if e == 'u' {
                        match parse_hex4_exec(s, cur + 2) {
                            Some(v) => {
                                if v < 0xD800 || (0xE000 <= v && v <= 0x10FFFF) {
                                    let ch = match crate::text::char_from_code(v) {
                                        Some(ch) => ch,
                                        None => {
                                            proof {
                                                assert(false);
                                            }
                                            '0'
                                        },
                                    };
                                    proof {
                                        vstd::utf8::char_u32_cast(ch, ch as u32);
                                    }
                                    let ghost pre = acc@;
                                    acc.push(ch);
                                    proof {
                                        let ghost next = parse_string_body(s@, cur as int + 6);
                                        match next {
                                            Some(q) => {
                                                assert(acc@ + q.0 =~= pre + (seq![ch] + q.0));
                                            },
                                            None => {},
                                        }
                                    }
                                    cur = cur + 6;
                                } else {
                                    return None;
                                }
                            },
                            None => {
                                return None;
                            },
                        }
                    } else {
                        return None;
                    }
                },
            }
        } else if (c as u32) < 0x20 {
            return None;
        } else {
            let ghost pre = acc@;
            acc.push(c);
            proof {
                let ghost next = parse_string_body(s@, cur as int + 1);
                match next {
                    Some(q) => {
                        assert(acc@ + q.0 =~= pre + (seq![c] + q.0));
                    },
                    None => {},
                }
            }
            cur = cur + 1;
        }
    }
}

fn parse_string_exec(s: &Vec<char>, i: usize) -> (r: Option<(Vec<char>, usize)>)
    requires
        i <= s@.len(),
    ensures
        r matches Some(p) ==> parse_string(s@, i as int) == Some((p.0@, p.1 as int)) && p.1
            <= s@.len(),
        r is None ==> parse_string(s@, i as int) is None,
{
    if i < s.len() && s[i] == '"' {
        parse_string_body_exec(s, i + 1)
    } else {
        None
    }
}

fn parse_key_colon_exec(s: &Vec<char>, i: usize, key: &Vec<char>) -> (r: Option<usize>)
    requires
        i <= s@.len(),
    ensures
        r matches Some(j) ==> parse_key_colon(s@, i as int, key@) == Some(j as int) && j
            <= s@.len(),
        r is None ==> parse_key_colon(s@, i as int, key@) is None,
{
    let parsed = match parse_string_exec(s, i) {
        Some(p) => p,
        None => {
            return None;
        },
    };
    if !crate::text::chars_eq(&parsed.0, key) {
        return None;
    }
    let j = skip_ws_exec(s, parsed.1);
    if j < s.len() && s[j] == ':' {
        Some(skip_ws_exec(s, j + 1))
    } else {
        None
    }
}

fn parse_member_exec(s: &Vec<char>, i: usize, key: &Vec<char>) -> (r: Option<(Vec<char>, usize)>)
    requires
        i <= s@.len(),
    ensures
        r matches Some(p) ==> parse_member(s@, i as int, key@) == Some((p.0@, p.1 as int)) && p.1
            <= s@.len(),
        r is None ==> parse_member(s@, i as int, key@) is None,
{
    match parse_key_colon_exec(s, i, key) {
        Some(j) => parse_string_exec(s, j),
        None => None,
    }
}

fn parse_record_exec(s: &Vec<char>, i: usize) -> (r: Option<(GhostData, usize)>)
    requires
        i <= s@.len(),
    ensures
        r matches Some(p) ==> parse_record(s@, i as int) == Some((p.0@, p.1 as int)) && p.1
            <= s@.len(),
        r is None ==> parse_record(s@, i as int) is None,
{
    if i >= s.len() || s[i] != '{' {
        return None;
    }
    let dk: Vec<char> = vec!['d', 'i', 'r', 'e', 'c', 't', 'o', 'r', 'y'];
    let sk: Vec<char> = vec!['s', 'a', 'k', 'u', 'r', 'a', 'N', 'a', 'm', 'e'];
    let kk: Vec<char> = vec!['k', 'e', 'r', 'o', 'N', 'a', 'm', 'e'];
    proof {
        assert(dk@ =~= directory_key());
        assert(sk@ =~= sakura_name_key());
        assert(kk@ =~= kero_name_key());
    }
    let j0 = skip_ws_exec(s, i + 1);
    let d = match parse_member_exec(s, j0, &dk) {
        Some(p) => p,
        None => {
            return None;
        },
    };
    let j2 = skip_ws_exec(s, d.1);
    if j2 >= s.len() || s[j2] != ',' {
        return None;
    }
    let j3 = skip_ws_exec(s, j2 + 1);
    let sn = match parse_member_exec(s, j3, &sk) {
        Some(p) => p,
        None => {
            return None;
        },
    };
    let j5 = skip_ws_exec(s, sn.1);
    if j5 >= s.len() || s[j5] != ',' {
        return None;
    }
    let j6 = skip_ws_exec(s, j5 + 1);
    let kn = match parse_member_exec(s, j6, &kk) {
        Some(p) => p,
        None => {
            return None;
        },
    };
    let j8 = skip_ws_exec(s, kn.1);
    if j8 >= s.len() || s[j8] != '}' {
        return None;
    }
    let g = crate::ast::GhostData::new(
        crate::text::chars_to_string(&d.0),
        crate::text::chars_to_string(&sn.0),
        crate::text::chars_to_string(&kn.0),
    );
    Some((g, j8 + 1))
}

fn parse_records_tail_exec(s: &Vec<char>, i: usize) -> (r: Option<(Vec<GhostData>, usize)>)
    requires
        i <= s@.len(),
    ensures
        r matches Some(p) ==> parse_records_tail(s@, i as int) == Some(
            (p.0.deep_view(), p.1 as int),
        ) && p.1 <= s@.len(),
        r is None ==> parse_records_tail(s@, i as int) is None,
    decreases s@.len() - i,
{
    let k = skip_ws_exec(s, i);
    if k >= s.len() {
        return None;
    }
    if s[k] == ']' {
        let empty: Vec<GhostData> = Vec::new();
        proof {
            assert(empty.deep_view() =~= Seq::<GhostDataView>::empty());
        }
        return Some((empty, k + 1));
    }
    if s[k] != ',' {
        return None;
    }
    let k2 = skip_ws_exec(s, k + 1);
    let rec = match parse_record_exec(s, k2) {
        Some(p) => p,
        None => {
            return None;
        },
    };
    if !(k < rec.1) {
        return None;
    }
    let rest = match parse_records_tail_exec(s, rec.1) {
        Some(p) => p,
        None => {
            return None;
        },
    };
    let mut out: Vec<GhostData> = Vec::new();
    out.push(rec.0);
    let mut n: usize = 0;
    let ghost restv = rest.0.deep_view();
    let ghost first = out.deep_view();
    while n < rest.0.len()
        invariant
            0 <= n <= rest.0.len(),
            restv == rest.0.deep_view(),
            out.deep_view() =~= first + restv.take(n as int),
        decreases rest.0.len() - n,
    {
        let g = rest.0[n].clone();
        let ghost pre = out;
        out.push(g);
        proof {
            crate::text::lemma_deep_view_push(pre, out, g);
            assert(g.deep_view() == restv[n as int]);
            assert(out.deep_view() =~= first + restv.take(n as int + 1));
        }
        n = n + 1;
    }
    proof {
        assert(restv.take(rest.0@.len() as int) =~= restv);
        assert(out.deep_view() =~= first + restv);
    }
    Some((out, rest.1))
}

fn parse_array_exec(s: &Vec<char>, i: usize) -> (r: Option<(Vec<GhostData>, usize)>)
    requires
        i <= s@.len(),
    ensures
        r matches Some(p) ==> parse_array(s@, i as int) == Some((p.0.deep_view(), p.1 as int))
            && p.1 <= s@.len(),
        r is None ==> parse_array(s@, i as int) is None,
{
    if i >= s.len() || s[i] != '[' {
        return None;
    }
    let k = skip_ws_exec(s, i + 1);
    if k >= s.len() {
        return None;
    }
    if s[k] == ']' {
        let empty: Vec<GhostData> = Vec::new();
        proof {
            assert(empty.deep_view() =~= Seq::<GhostDataView>::empty());
        }
        return Some((empty, k + 1));
    }
    let rec = match parse_record_exec(s, k) {
        Some(p) => p,
        None => {
            return None;
        },
    };
    if !(i < rec.1) {
        return None;
    }
    let rest = match parse_records_tail_exec(s, rec.1) {
        Some(p) => p,
        None => {
            return None;
        },
    };
    let mut out: Vec<GhostData> = Vec::new();
    out.push(rec.0);
    let mut n: usize = 0;
    let ghost restv = rest.0.deep_view();
    let ghost first = out.deep_view();
    while n < rest.0.len()
        invariant
            0 <= n <= rest.0.len(),
            restv == rest.0.deep_view(),
            out.deep_view() =~= first + restv.take(n as int),
        decreases rest.0.len() - n,
    {
        let g = rest.0[n].clone();
        let ghost pre = out;
        out.push(g);
        proof {
            crate::text::lemma_deep_view_push(pre, out, g);
            assert(g.deep_view() == restv[n as int]);
            assert(out.deep_view() =~= first + restv.take(n as int + 1));
        }
        n = n + 1;
    }
    proof {
        assert(restv.take(rest.0@.len() as int) =~= restv);
        assert(out.deep_view() =~= first + restv);
    }
    Some((out, rest.1))
}

/// Parses a catalog document from its JSON text. Both mandatory fields
/// must be present in their fixed order; anything else is a parse failure.
pub fn parse_catalog(text: &str) -> (r: Result<GhostJson, ParseError>)
    ensures
        r matches Ok(j) ==> parse_catalog_text(text@) == Some(j@),
        r is Err ==> parse_catalog_text(text@) is None,
{
    let s = crate::text::string_to_chars(text);
    let uk: Vec<char> = vec!['u', 'p', 'd', 'a', 't', 'e'];
    let gk: Vec<char> = vec!['g', 'h', 'o', 's', 't', 'L', 'i', 's', 't'];
    proof {
        assert(uk@ =~= update_key());
        assert(gk@ =~= ghost_list_key());
    }
    let i0 = skip_ws_exec(&s, 0);
    if i0 >= s.len() || s[i0] != '{' {
        return Err(ParseError);
    }
    let j0 = skip_ws_exec(&s, i0 + 1);
    let u = match parse_member_exec(&s, j0, &uk) {
        Some(p) => p,
        None => {
            return Err(ParseError);
        },
    };
    let j1 = skip_ws_exec(&s, u.1);
    if j1 >= s.len() || s[j1] != ',' {
        return Err(ParseError);
    }
    let j2 = skip_ws_exec(&s, j1 + 1);
    let j3 = match parse_key_colon_exec(&s, j2, &gk) {
        Some(j) => j,
        None => {
            return Err(ParseError);
        },
    };
    let records = match parse_array_exec(&s, j3) {
        Some(p) => p,
        None => {
            return Err(ParseError);
        },
    };
    let j4 = skip_ws_exec(&s, records.1);
    if j4 >= s.len() || s[j4] != '}' {
        return Err(ParseError);
    }
    let j5 = skip_ws_exec(&s, j4 + 1);
    if j5 != s.len() {
        return Err(ParseError);
    }
    let json = crate::ast::GhostJson::new(crate::text::chars_to_string(&u.0), records.0);
    proof {
        assert(parse_catalog_text(text@) == Some(json@));
    }
    Ok(json)
}

proof fn lemma_subrange_split(s: Seq<char>, i: int, a: Seq<char>, b: Seq<char>)
    requires
        0 <= i,
        i + a.len() + b.len() <= s.len(),
        s.subrange(i, i + a.len() + b.len()) == a + b,
    ensures
        s.subrange(i, i + a.len()) == a,
        s.subrange(i + a.len(), i + a.len() + b.len()) == b,
{
    assert forall|t: int| 0 <= t < a.len() implies s.subrange(i, i + a.len() as int)[t] == a[t] by {
        assert(s.subrange(i, i + a.len() + b.len())[t] == (a + b)[t]);
    }
    assert(s.subrange(i, i + a.len() as int) =~= a);
    assert forall|t: int|
        0 <= t < b.len() implies s.subrange(i + a.len(), i + a.len() + b.len())[t] == b[t] by {
        assert(s.subrange(i, i + a.len() + b.len())[a.len() + t] == (a + b)[a.len() + t]);
        assert((a + b)[a.len() + t] == b[t]);
        assert(s.subrange(i, i + a.len() + b.len())[a.len() + t] == s[i + a.len() + t]);
        assert(s.subrange(i + a.len(), i + a.len() + b.len())[t] == s[i + a.len() + t]);
    }
    assert(s.subrange(i + a.len() as int, i + a.len() + b.len()) =~= b);
}

proof fn lemma_hex_char_val(d: int)
    requires
        0 <= d < 16,
    ensures
        hex_val(hex_char(d)) == d,
{
    if d < 10 {
        assert(hex_char(d) as u32 == 48 + d);
    } else {
        assert(hex_char(d) as u32 == 87 + d);
    }
}

#[verifier::rlimit(100)]
#[verifier::spinoff_prover]
proof fn lemma_parse_string_body_of_escaped(v: Seq<char>, s: Seq<char>, i: int)
    requires
        0 <= i,
        i + esc_string(v).len() + 1 <= s.len(),
        s.subrange(i, i + esc_string(v).len() + 1) == esc_string(v) + seq!['"'],
    ensures
        parse_string_body(s, i) == Some((v, i + esc_string(v).len() + 1)),
    decreases v.len(),
{
    if v.len() == 0 {
        assert(esc_string(v) =~= Seq::<char>::empty());
        assert(esc_string(v) + seq!['"'] =~= seq!['"']);
        assert(s[i] == s.subrange(i, i + 1)[0]);
        assert(s[i] == '"');
        assert(v =~= Seq::<char>::empty());
    } else {
        let c = v[0];
        let u = c as u32;
        let rest = v.drop_first();
        let e = esc_char(c);
        let el = e.len() as int;
        assert(esc_string(v) == e + esc_string(rest));
        let tail = esc_string(rest) + seq!['"'];
        assert(esc_string(v) + seq!['"'] =~= e + tail);
        lemma_subrange_split(s, i, e, tail);
        assert forall|t: int| 0 <= t < el implies s[i + t] == e[t] by {
            assert(s.subrange(i, i + el)[t] == s[i + t]);
        }
        lemma_parse_string_body_of_escaped(rest, s, i + el);
        let fin = i + esc_string(v).len() + 1;
        assert(parse_string_body(s, i + el) == Some((rest, fin)));
        assert(seq![c] + rest =~= v);
        if c == '"' {
            assert(s[i] == '\\' && s[i + 1] == '"');
            assert(simple_unescape(s[i + 1]) == Some('"'));
            assert(parse_string_body(s, i) == Some((seq!['"'] + rest, fin)));
        } else if c == '\\' {
            assert(s[i] == '\\' && s[i + 1] == '\\');
            assert(parse_string_body(s, i) == Some((seq!['\\'] + rest, fin)));
        } else if u == 8 || u == 9 || u == 10 || u == 12 || u == 13 {
            assert(s[i] == '\\');
            let lit = s[i + 1];
            vstd::utf8::char_u32_cast(c, u);
            if u == 8 {
                assert(lit == 'b');
                assert(simple_unescape(lit) == Some('\u{8}'));
                vstd::utf8::char_u32_cast('\u{8}', 8);
                assert('\u{8}' == c);
            } else if u == 9 {
                assert(lit == 't');
                assert(simple_unescape(lit) == Some('\t'));
                vstd::utf8::char_u32_cast('\t', 9);
                assert('\t' == c);
            } else if u == 10 {
                assert(lit == 'n');
                assert(simple_unescape(lit) == Some('\n'));
                vstd::utf8::char_u32_cast('\n', 10);
                assert('\n' == c);
            } else if u == 12 {
                assert(lit == 'f');
                assert(simple_unescape(lit) == Some('\u{c}'));
                vstd::utf8::char_u32_cast('\u{c}', 12);
                assert('\u{c}' == c);
            } else {
                assert(lit == 'r');
                assert(simple_unescape(lit) == Some('\r'));
                vstd::utf8::char_u32_cast('\r', 13);
                assert('\r' == c);
            }
            assert(parse_string_body(s, i) == Some((seq![c] + rest, fin)));
        } else if u < 0x20 {
            assert(s[i] == '\\' && s[i + 1] == 'u' && s[i + 2] == '0' && s[i + 3] == '0');
            assert(s[i + 4] == hex_char(u as int / 16) && s[i + 5] == hex_char(u as int % 16));
            assert(simple_unescape('u') is None);
            assert(hex_val('0') == 0);
            lemma_hex_char_val(u as int / 16);
            lemma_hex_char_val(u as int % 16);
            vstd::arithmetic::div_mod::lemma_fundamental_div_mod(u as int, 16);
            assert(parse_hex4(s, i + 2) == Some(u as int));
            assert(is_scalar_code(u as int));
            vstd::utf8::char_u32_cast(c, u);
            assert((u as int) as u32 == u);
            assert(((u as int) as u32) as char == c);
            assert(parse_string_body(s, i) == Some((seq![c] + rest, fin)));
        } else {
            assert(s[i] == c);
            assert(parse_string_body(s, i) == Some((seq![c] + rest, fin)));
        }
    }
}

proof fn lemma_parse_string_of_json(v: Seq<char>, s: Seq<char>, i: int)
    requires
        0 <= i,
        i + json_string(v).len() <= s.len(),
        s.subrange(i, i + json_string(v).len()) == json_string(v),
    ensures
        parse_string(s, i) == Some((v, i + json_string(v).len())),
{
    let body = esc_string(v) + seq!['"'];
    assert(json_string(v) =~= seq!['"'] + body);
    lemma_subrange_split(s, i, seq!['"'], body);
    assert(s[i] == s.subrange(i, i + 1)[0]);
    assert(s[i] == '"');
    lemma_parse_string_body_of_escaped(v, s, i + 1);
}

#[verifier::spinoff_prover]
proof fn lemma_parse_member_of_json(key: Seq<char>, val: Seq<char>, s: Seq<char>, i: int)
    requires
        0 <= i,
        i + json_string(key).len() + 1 + json_string(val).len() <= s.len(),
        s.subrange(i, i + json_string(key).len() + 1 + json_string(val).len()) == json_string(key)
            + seq![':'] + json_string(val),
    ensures
        parse_member(s, i, key) == Some(
            (val, i + json_string(key).len() + 1 + json_string(val).len()),
        ),
{
    let kw = json_string(key);
    let rest = seq![':'] + json_string(val);
    assert(kw + seq![':'] + json_string(val) =~= kw + rest);
    lemma_subrange_split(s, i, kw, rest);
    lemma_parse_string_of_json(key, s, i);
    let j = i + kw.len() as int;
    lemma_subrange_split(s, j, seq![':'], json_string(val));
    assert(s[j] == s.subrange(j, j + 1)[0]);
    assert(s[j] == ':');
    assert(skip_ws(s, j) == j);
    let j2 = j + 1;
    assert(s[j2] == s.subrange(j2, j2 + json_string(val).len() as int)[0]);
    assert(s[j2] == '"');
    assert(skip_ws(s, j2) == j2);
    lemma_parse_string_of_json(val, s, j2);
    assert(parse_key_colon(s, i, key) == Some(j2));
}

#[verifier::rlimit(100)]
#[verifier::spinoff_prover]
proof fn lemma_parse_record_of_json(g: GhostDataView, s: Seq<char>, i: int)
    requires
        0 <= i,
        i + record_json(g).len() <= s.len(),
        s.subrange(i, i + record_json(g).len()) == record_json(g),
    ensures
        parse_record(s, i) == Some((g, i + record_json(g).len())),
{
    let md = json_string(directory_key()) + seq![':'] + json_string(g.directory);
    let ms = json_string(sakura_name_key()) + seq![':'] + json_string(g.sakura_name);
    let mk = json_string(kero_name_key()) + seq![':'] + json_string(g.kero_name);
    let tail1 = md + (seq![','] + (ms + (seq![','] + (mk + seq!['}']))));
    assert(record_json(g) =~= seq!['{'] + tail1);
    lemma_subrange_split(s, i, seq!['{'], tail1);
    assert(s[i] == s.subrange(i, i + 1)[0]);
    assert(s[i] == '{');
    let o1 = i + 1;
    lemma_subrange_split(s, o1, md, seq![','] + (ms + (seq![','] + (mk + seq!['}']))));
    assert(s[o1] == s.subrange(o1, o1 + md.len() as int)[0]);
    assert(s[o1] == '"');
    assert(skip_ws(s, o1) == o1);
    lemma_parse_member_of_json(directory_key(), g.directory, s, o1);
    let o2 = o1 + md.len() as int;
    lemma_subrange_split(s, o2, seq![','], ms + (seq![','] + (mk + seq!['}'])));
    assert(s[o2] == s.subrange(o2, o2 + 1)[0]);
    assert(s[o2] == ',');
    assert(skip_ws(s, o2) == o2);
    let o3 = o2 + 1;
    lemma_subrange_split(s, o3, ms, seq![','] + (mk + seq!['}']));
    assert(s[o3] == s.subrange(o3, o3 + ms.len() as int)[0]);
    assert(s[o3] == '"');
    assert(skip_ws(s, o3) == o3);
    lemma_parse_member_of_json(sakura_name_key(), g.sakura_name, s, o3);
    let o4 = o3 + ms.len() as int;
    lemma_subrange_split(s, o4, seq![','], mk + seq!['}']);
    assert(s[o4] == s.subrange(o4, o4 + 1)[0]);
    assert(s[o4] == ',');
    assert(skip_ws(s, o4) == o4);
    let o5 = o4 + 1;
    lemma_subrange_split(s, o5, mk, seq!['}']);
    assert(s[o5] == s.subrange(o5, o5 + mk.len() as int)[0]);
    assert(s[o5] == '"');
    assert(skip_ws(s, o5) == o5);
    lemma_parse_member_of_json(kero_name_key(), g.kero_name, s, o5);
    let o6 = o5 + mk.len() as int;
    assert(s[o6] == s.subrange(o6, o6 + 1)[0]);
    assert(s[o6] == '}');
    assert(skip_ws(s, o6) == o6);
    assert(o6 + 1 == i + record_json(g).len());
    assert((GhostDataView {
        directory: g.directory,
        sakura_name: g.sakura_name,
        kero_name: g.kero_name,
    }) =~= g);
}

#[verifier::rlimit(100)]
#[verifier::spinoff_prover]
proof fn lemma_parse_records_tail_of_json(rs: Seq<GhostDataView>, s: Seq<char>, i: int)
    requires
        0 <= i,
        i + records_tail_json(rs).len() + 1 <= s.len(),
        s.subrange(i, i + records_tail_json(rs).len() + 1) == records_tail_json(rs) + seq![']'],
    ensures
        parse_records_tail(s, i) == Some((rs, i + records_tail_json(rs).len() + 1)),
    decreases rs.len(),
{
    if rs.len() == 0 {
        assert(records_tail_json(rs) =~= Seq::<char>::empty());
        assert(records_tail_json(rs) + seq![']'] =~= seq![']']);
        assert(s[i] == s.subrange(i, i + 1)[0]);
        assert(s[i] == ']');
        assert(skip_ws(s, i) == i);
        assert(rs =~= Seq::<GhostDataView>::empty());
    } else {
        let head = rs[0];
        let rest = rs.drop_first();
        let rj = record_json(head);
        let tail = records_tail_json(rest) + seq![']'];
        assert(records_tail_json(rs) == seq![','] + rj + records_tail_json(rest));
        assert(records_tail_json(rs) + seq![']'] =~= seq![','] + (rj + tail));
        lemma_subrange_split(s, i, seq![','], rj + tail);
        assert(s[i] == s.subrange(i, i + 1)[0]);
        assert(s[i] == ',');
        assert(skip_ws(s, i) == i);
        let o1 = i + 1;
        lemma_subrange_split(s, o1, rj, tail);
        assert(s[o1] == s.subrange(o1, o1 + rj.len() as int)[0]);
        assert(s[o1] == '{');
        assert(skip_ws(s, o1) == o1);
        lemma_parse_record_of_json(head, s, o1);
        let o2 = o1 + rj.len() as int;
        lemma_parse_records_tail_of_json(rest, s, o2);
        assert(seq![head] + rest =~= rs);
    }
}

#[verifier::rlimit(100)]
#[verifier::spinoff_prover]
proof fn lemma_parse_array_of_json(rs: Seq<GhostDataView>, s: Seq<char>, i: int)
    requires
        0 <= i,
        i + records_json(rs).len() + 2 <= s.len(),
        s.subrange(i, i + records_json(rs).len() + 2) == seq!['['] + records_json(rs) + seq![']'],
    ensures
        parse_array(s, i) == Some((rs, i + records_json(rs).len() + 2)),
{
    let inner = records_json(rs) + seq![']'];
    assert(seq!['['] + records_json(rs) + seq![']'] =~= seq!['['] + inner);
    lemma_subrange_split(s, i, seq!['['], inner);
    assert(s[i] == s.subrange(i, i + 1)[0]);
    assert(s[i] == '[');
    let o1 = i + 1;
    if rs.len() == 0 {
        assert(records_json(rs) =~= Seq::<char>::empty());
        assert(inner =~= seq![']']);
        assert(s[o1] == s.subrange(o1, o1 + 1)[0]);
        assert(s[o1] == ']');
        assert(skip_ws(s, o1) == o1);
        assert(rs =~= Seq::<GhostDataView>::empty());
    } else {
        let head = rs[0];
        let rest = rs.drop_first();
        let rj = record_json(head);
        let tail = records_tail_json(rest) + seq![']'];
        assert(records_json(rs) == rj + records_tail_json(rest));
        assert(inner =~= rj + tail);
        lemma_subrange_split(s, o1, rj, tail);
        assert(s[o1] == s.subrange(o1, o1 + rj.len() as int)[0]);
        assert(s[o1] == '{');
        assert(skip_ws(s, o1) == o1);
        lemma_parse_record_of_json(head, s, o1);
        let o2 = o1 + rj.len() as int;
        lemma_parse_records_tail_of_json(rest, s, o2);
        assert(seq![head] + rest =~= rs);
    }
}

#[verifier::rlimit(100)]
#[verifier::spinoff_prover]
proof fn lemma_catalog_members(c: GhostJsonView, s: Seq<char>, o1: int)
    requires
        0 <= o1,
        ({
            let mu = json_string(update_key()) + seq![':'] + json_string(c.update);
            let kg = json_string(ghost_list_key());
            let arr = seq!['['] + records_json(c.ghost_list) + seq![']'];
            let tail1 = mu + (seq![','] + (kg + (seq![':'] + (arr + seq!['}']))));
            &&& o1 + tail1.len() <= s.len()
            &&& s.subrange(o1, o1 + tail1.len()) == tail1
        }),
    ensures
        ({
            let mu = json_string(update_key()) + seq![':'] + json_string(c.update);
            let kg = json_string(ghost_list_key());
            let arr = seq!['['] + records_json(c.ghost_list) + seq![']'];
            let o2 = o1 + mu.len() as int;
            let o5 = o2 + 1 + kg.len() + 1;
            let o6 = o5 + arr.len() as int;
            &&& parse_member(s, o1, update_key()) == Some((c.update, o2))
            &&& skip_ws(s, o2) == o2
            &&& s[o2] == ','
            &&& skip_ws(s, o2 + 1) == o2 + 1
            &&& parse_key_colon(s, o2 + 1, ghost_list_key()) == Some(o5)
            &&& parse_array(s, o5) == Some((c.ghost_list, o6))
            &&& s[o6] == '}'
            &&& skip_ws(s, o6) == o6
        }),
{
    let mu = json_string(update_key()) + seq![':'] + json_string(c.update);
    let kg = json_string(ghost_list_key());
    let arr = seq!['['] + records_json(c.ghost_list) + seq![']'];
    lemma_subrange_split(s, o1, mu, seq![','] + (kg + (seq![':'] + (arr + seq!['}']))));
    lemma_parse_member_of_json(update_key(), c.update, s, o1);
    let o2 = o1 + mu.len() as int;
    lemma_subrange_split(s, o2, seq![','], kg + (seq![':'] + (arr + seq!['}'])));
    assert(s[o2] == s.subrange(o2, o2 + 1)[0]);
    assert(skip_ws(s, o2) == o2);
    let o3 = o2 + 1;
    lemma_subrange_split(s, o3, kg, seq![':'] + (arr + seq!['}']));
    assert(s[o3] == s.subrange(o3, o3 + kg.len() as int)[0]);
    assert(s[o3] == '"');
    assert(skip_ws(s, o3) == o3);
    lemma_parse_string_of_json(ghost_list_key(), s, o3);
    let o4 = o3 + kg.len() as int;
    lemma_subrange_split(s, o4, seq![':'], arr + seq!['}']);
    assert(s[o4] == s.subrange(o4, o4 + 1)[0]);
    assert(s[o4] == ':');
    assert(skip_ws(s, o4) == o4);
    let o5 = o4 + 1;
    lemma_subrange_split(s, o5, arr, seq!['}']);
    assert(s[o5] == s.subrange(o5, o5 + arr.len() as int)[0]);
    assert(s[o5] == '[');
    assert(skip_ws(s, o5) == o5);
    assert(parse_key_colon(s, o3, ghost_list_key()) == Some(o5));
    lemma_parse_array_of_json(c.ghost_list, s, o5);
    let o6 = o5 + arr.len() as int;
    assert(s[o6] == s.subrange(o6, o6 + 1)[0]);
    assert(s[o6] == '}');
    assert(skip_ws(s, o6) == o6);
}

/// The codec round-trips: parsing the serialized form of any catalog value
/// returns exactly that value.
#[verifier::rlimit(100)]
#[verifier::spinoff_prover]
pub proof fn lemma_codec_round_trip(c: GhostJsonView)
    ensures
        parse_catalog_text(catalog_json(c)) == Some(c),
{
    let s = catalog_json(c);
    let mu = json_string(update_key()) + seq![':'] + json_string(c.update);
    let kg = json_string(ghost_list_key());
    let arr = seq!['['] + records_json(c.ghost_list) + seq![']'];
    let tail1 = mu + (seq![','] + (kg + (seq![':'] + (arr + seq!['}']))));
    assert(s =~= seq!['{'] + tail1);
    assert(s.subrange(0, s.len() as int) =~= s);
    lemma_subrange_split(s, 0, seq!['{'], tail1);
    assert(s[0] == s.subrange(0, 1)[0]);
    assert(s[0] == '{');
    assert(skip_ws(s, 0) == 0);
    let o1 = 1;
    assert(s[o1] == s.subrange(o1, o1 + tail1.len() as int)[0]);
    assert(s[o1] == '"');
    assert(skip_ws(s, o1) == o1);
    lemma_catalog_members(c, s, o1);
    let o2 = o1 + mu.len() as int;
    let o5 = o2 + 1 + kg.len() as int + 1;
    let o6 = o5 + arr.len() as int;
    assert(o6 + 1 == s.len());
    assert(skip_ws(s, o6 + 1) == s.len());
    assert((GhostJsonView { update: c.update, ghost_list: c.ghost_list }) =~= c);
}

} // verus!
