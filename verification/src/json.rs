//! The JSON codec for project lists.
//!
//! The cache file and the API response body both carry a JSON array of
//! objects; each object must hold string members `id` and `slug`, and may
//! hold further members of any JSON kind, which are skipped.  The grammar
//! is stated as specification functions over byte sequences; the
//! executable parser and serializer are proved to match them exactly.
//!
//! Strings decode the escapes `\"` `\\` `\/` `\b` `\f` `\n` `\r` `\t` and
//! `\uXXXX` for code points outside the surrogate range; a surrogate pair
//! is rejected as a parse error.  The serializer escapes `"`, `\` and
//! control bytes (the latter as `\u00XX`), which keeps every other byte
//! verbatim, so the output is valid JSON for every byte-string field.
//!
//! Nesting of skipped members is bounded by a fuel argument derived from
//! the input length; inputs long enough to overflow that bound are
//! rejected up front.

use vstd::prelude::*;

use crate::project::{list_view, Project, ProjectView};

verus! {

pub const QUOTE: u8 = 34;

pub const BACKSLASH: u8 = 92;

pub const LBRACKET: u8 = 91;

pub const RBRACKET: u8 = 93;

pub const LBRACE: u8 = 123;

pub const RBRACE: u8 = 125;

pub const COMMA: u8 = 44;

pub const COLON: u8 = 58;

/// Inputs at or above this length are rejected before parsing.
pub const MAX_INPUT: usize = 0x1000_0000;

/// JSON insignificant whitespace.
pub open spec fn is_ws(b: u8) -> bool {
    b == 32 || b == 9 || b == 10 || b == 13
}

/// The first position at or after `i` holding no whitespace.
pub open spec fn sp_ws(s: Seq<u8>, i: int) -> int
    decreases s.len() - i,
{
    if 0 <= i < s.len() && is_ws(s[i]) {
        sp_ws(s, i + 1)
    } else {
        i
    }
}

/// Value of an ASCII hex digit.
pub open spec fn sp_hex(b: u8) -> Option<int> {
    if 48 <= b <= 57 {
        Some(b - 48 as int)
    } else if 97 <= b <= 102 {
        Some(b - 87 as int)
    } else if 65 <= b <= 70 {
        Some(b - 55 as int)
    } else {
        None
    }
}

/// UTF-8 bytes of a code point below 0x10000.
pub open spec fn sp_utf8(cp: int) -> Seq<u8> {
    if cp < 0x80 {
        seq![cp as u8]
    } else if cp < 0x800 {
        seq![(192 + cp / 64) as u8, (128 + cp % 64) as u8]
    } else {
        seq![(224 + cp / 4096) as u8, (128 + (cp / 64) % 64) as u8, (128 + cp % 64) as u8]
    }
}

/// What a single-character escape stands for.
pub open spec fn sp_esc_char(c: u8) -> Option<u8> {
    if c == QUOTE {
        Some(QUOTE)
    } else if c == BACKSLASH {
        Some(BACKSLASH)
    } else if c == 47 {
        Some(47u8)
    } else if c == 98 {
        Some(8u8)
    } else if c == 102 {
        Some(12u8)
    } else if c == 110 {
        Some(10u8)
    } else if c == 114 {
        Some(13u8)
    } else if c == 116 {
        Some(9u8)
    } else {
        None
    }
}

/// Decode of a string body: `i` stands just after the opening quote;
/// yields the decoded bytes and the position just after the closing quote.
pub open spec fn sp_str_body(s: Seq<u8>, i: int) -> Option<(Seq<u8>, int)>
    decreases s.len() - i,
{
    if !(0 <= i < s.len()) {
        None
    } else {
        let b = s[i];
        if b == QUOTE {
            Some((Seq::<u8>::empty(), i + 1))
        } else if b == BACKSLASH {
            if i + 1 < s.len() {
                let c = s[i + 1];
                if c == 117 {
                    if i + 6 <= s.len() {
                        match (sp_hex(s[i + 2]), sp_hex(s[i + 3]), sp_hex(s[i + 4]), sp_hex(
                            s[i + 5],
                        )) {
                            (Some(h1), Some(h2), Some(h3), Some(h4)) => {
                                let cp = h1 * 4096 + h2 * 256 + h3 * 16 + h4;
                                if 0xD800 <= cp < 0xE000 {
                                    None
                                } else {
                                    match sp_str_body(s, i + 6) {
                                        Some((t, j)) => Some((sp_utf8(cp) + t, j)),
                                        None => None,
                                    }
                                }
                            },
                            _ => None,
                        }
                    } else {
                        None
                    }
                } else {
                    match sp_esc_char(c) {
                        Some(d) => match sp_str_body(s, i + 2) {
                            Some((t, j)) => Some((seq![d] + t, j)),
                            None => None,
                        },
                        None => None,
                    }
                }
            } else {
                None
            }
        } else if b < 32 {
            None
        } else {
            match sp_str_body(s, i + 1) {
                Some((t, j)) => Some((seq![b] + t, j)),
                None => None,
            }
        }
    }
}

/// A complete string token starting at `i`.
pub open spec fn sp_string(s: Seq<u8>, i: int) -> Option<(Seq<u8>, int)> {
    if 0 <= i < s.len() && s[i] == QUOTE {
        sp_str_body(s, i + 1)
    } else {
        None
    }
}

/// Bytes that may continue a number token.
pub open spec fn is_num_byte(b: u8) -> bool {
    48 <= b <= 57 || b == 45 || b == 43 || b == 46 || b == 101 || b == 69
}

/// End of a number token starting at `i`.
pub open spec fn sp_skip_num(s: Seq<u8>, i: int) -> int
    decreases s.len() - i,
{
    if 0 <= i < s.len() && is_num_byte(s[i]) {
        sp_skip_num(s, i + 1)
    } else {
        i
    }
}

/// Whether the bytes of `w` stand in `s` at position `i`.
pub open spec fn sp_match(s: Seq<u8>, i: int, w: Seq<u8>) -> bool {
    0 <= i && i + w.len() <= s.len() && s.subrange(i, i + w.len() as int) == w
}

pub open spec fn word_true() -> Seq<u8> {
    seq![116u8, 114, 117, 101]
}

pub open spec fn word_false() -> Seq<u8> {
    seq![102u8, 97, 108, 115, 101]
}

pub open spec fn word_null() -> Seq<u8> {
    seq![110u8, 117, 108, 108]
}

pub open spec fn word_id() -> Seq<u8> {
    seq![105u8, 100]
}

pub open spec fn word_slug() -> Seq<u8> {
    seq![115u8, 108, 117, 103]
}

/// End of an arbitrary JSON value starting at `i`; `d` bounds the
/// recursion and shrinks on every step.
pub open spec fn sp_skip_value(s: Seq<u8>, i: int, d: nat) -> Option<int>
    decreases d,
{
    if d == 0 {
        None
    } else if !(0 <= i < s.len()) {
        None
    } else {
        let b = s[i];
        if b == QUOTE {
            match sp_string(s, i) {
                Some((t, j)) => Some(j),
                None => None,
            }
        } else if b == LBRACE {
            sp_skip_members(s, i + 1, true, (d - 1) as nat)
        } else if b == LBRACKET {
            sp_skip_elems(s, i + 1, true, (d - 1) as nat)
        } else if b == 116 {
            if sp_match(s, i, word_true()) {
                Some(i + 4)
            } else {
                None
            }
        } else if b == 102 {
            if sp_match(s, i, word_false()) {
                Some(i + 5)
            } else {
                None
            }
        } else if b == 110 {
            if sp_match(s, i, word_null()) {
                Some(i + 4)
            } else {
                None
            }
        } else if b == 45 || 48 <= b <= 57 {
            Some(sp_skip_num(s, i))
        } else {
            None
        }
    }
}

/// End of the items of a skipped array, `i` standing just after `[` or
/// after a previous item.
pub open spec fn sp_skip_elems(s: Seq<u8>, i: int, first: bool, d: nat) -> Option<int>
    decreases d,
{
    if d == 0 {
        None
    } else {
        let k = sp_ws(s, i);
        if !(0 <= k < s.len()) {
            None
        } else if s[k] == RBRACKET {
            Some(k + 1)
        } else {
            let p = if first {
                k
            } else if s[k] == COMMA {
                sp_ws(s, k + 1)
            } else {
                -1
            };
            if p < 0 {
                None
            } else {
                match sp_skip_value(s, p, (d - 1) as nat) {
                    Some(j) => sp_skip_elems(s, j, false, (d - 1) as nat),
                    None => None,
                }
            }
        }
    }
}

/// End of the members of a skipped object, `i` standing just after `{`
/// or after a previous member.
pub open spec fn sp_skip_members(s: Seq<u8>, i: int, first: bool, d: nat) -> Option<int>
    decreases d,
{
    if d == 0 {
        None
    } else {
        let k = sp_ws(s, i);
        if !(0 <= k < s.len()) {
            None
        } else if s[k] == RBRACE {
            Some(k + 1)
        } else {
            let p = if first {
                k
            } else if s[k] == COMMA {
                sp_ws(s, k + 1)
            } else {
                -1
            };
            if p < 0 {
                None
            } else {
                match sp_string(s, p) {
                    Some((key, j)) => {
                        let c = sp_ws(s, j);
                        if 0 <= c < s.len() && s[c] == COLON {
                            match sp_skip_value(s, sp_ws(s, c + 1), (d - 1) as nat) {
                                Some(j2) => sp_skip_members(s, j2, false, (d - 1) as nat),
                                None => None,
                            }
                        } else {
                            None
                        }
                    },
                    None => None,
                }
            }
        }
    }
}

/// The members of one project object, `i` standing just after `{` or
/// after a previous member.  `id` and `slug` hold what was seen so far;
/// a repeated or missing member is an error.
pub open spec fn sp_members(
    s: Seq<u8>,
    i: int,
    id: Option<Seq<u8>>,
    slug: Option<Seq<u8>>,
    first: bool,
    d: nat,
) -> Option<(ProjectView, int)>
    decreases d,
{
    if d == 0 {
        None
    } else {
        let k = sp_ws(s, i);
        if !(0 <= k < s.len()) {
            None
        } else if s[k] == RBRACE {
            match (id, slug) {
                (Some(a), Some(b)) => Some((ProjectView { id: a, slug: b }, k + 1)),
                _ => None,
            }
        } else {
            let p = if first {
                k
            } else if s[k] == COMMA {
                sp_ws(s, k + 1)
            } else {
                -1
            };
            if p < 0 {
                None
            } else {
                match sp_string(s, p) {
                    Some((key, j)) => {
                        let c = sp_ws(s, j);
                        if 0 <= c < s.len() && s[c] == COLON {
                            let m = sp_ws(s, c + 1);
                            if key == word_id() {
                                if id is Some {
                                    None
                                } else {
                                    match sp_string(s, m) {
                                        Some((v, j2)) => sp_members(
                                            s,
                                            j2,
                                            Some(v),
                                            slug,
                                            false,
                                            (d - 1) as nat,
                                        ),
                                        None => None,
                                    }
                                }
                            } else if key == word_slug() {
                                if slug is Some {
                                    None
                                } else {
                                    match sp_string(s, m) {
                                        Some((v, j2)) => sp_members(
                                            s,
                                            j2,
                                            id,
                                            Some(v),
                                            false,
                                            (d - 1) as nat,
                                        ),
                                        None => None,
                                    }
                                }
                            } else {
                                match sp_skip_value(s, m, (d - 1) as nat) {
                                    Some(j2) => sp_members(s, j2, id, slug, false, (d - 1) as nat),
                                    None => None,
                                }
                            }
                        } else {
                            None
                        }
                    },
                    None => None,
                }
            }
        }
    }
}

/// One project object starting at `i`.
pub open spec fn sp_project(s: Seq<u8>, i: int, d: nat) -> Option<(ProjectView, int)> {
    if d > 0 && 0 <= i < s.len() && s[i] == LBRACE {
        sp_members(s, i + 1, None, None, true, (d - 1) as nat)
    } else {
        None
    }
}

/// The items of the top-level array, `i` standing just after `[` or
/// after a previous item.
pub open spec fn sp_elems(s: Seq<u8>, i: int, first: bool, d: nat) -> Option<
    (Seq<ProjectView>, int),
>
    decreases d,
{
    if d == 0 {
        None
    } else {
        let k = sp_ws(s, i);
        if !(0 <= k < s.len()) {
            None
        } else if s[k] == RBRACKET {
            Some((Seq::<ProjectView>::empty(), k + 1))
        } else {
            let p = if first {
                k
            } else if s[k] == COMMA {
                sp_ws(s, k + 1)
            } else {
                -1
            };
            if p < 0 {
                None
            } else {
                match sp_project(s, p, (d - 1) as nat) {
                    Some((pv, j)) => match sp_elems(s, j, false, (d - 1) as nat) {
                        Some((rest, e)) => Some((seq![pv] + rest, e)),
                        None => None,
                    },
                    None => None,
                }
            }
        }
    }
}

/// Fuel handed to the recursive productions for an input of length `n`.
pub open spec fn sp_fuel(n: nat) -> nat {
    2 * n + 8
}

/// The parse of a whole document: a project list, or nothing.
pub open spec fn sp_parse(s: Seq<u8>) -> Option<Seq<ProjectView>> {
    if s.len() >= MAX_INPUT {
        None
    } else {
        let i = sp_ws(s, 0);
        if 0 <= i < s.len() && s[i] == LBRACKET {
            match sp_elems(s, i + 1, true, sp_fuel(s.len())) {
                Some((ps, e)) => {
                    if sp_ws(s, e) == s.len() {
                        Some(ps)
                    } else {
                        None
                    }
                },
                None => None,
            }
        } else {
            None
        }
    }
}

/// Hex digit of a value below 16, lower case.
pub open spec fn sp_hex_digit(v: u8) -> u8 {
    if v < 10 {
        (48 + v) as u8
    } else {
        (87 + v) as u8
    }
}

/// The escape of one byte in serialized output.
pub open spec fn sp_esc1(b: u8) -> Seq<u8> {
    if b == QUOTE {
        seq![BACKSLASH, QUOTE]
    } else if b == BACKSLASH {
        seq![BACKSLASH, BACKSLASH]
    } else if b < 32 {
        seq![BACKSLASH, 117, 48, 48, sp_hex_digit(b / 16), sp_hex_digit(b % 16)]
    } else {
        seq![b]
    }
}

/// The escape of a whole byte string.
pub open spec fn sp_esc(t: Seq<u8>) -> Seq<u8>
    decreases t.len(),
{
    if t.len() == 0 {
        Seq::<u8>::empty()
    } else {
        sp_esc1(t[0]) + sp_esc(t.drop_first())
    }
}

/// A serialized string token.
pub open spec fn sp_ser_str(t: Seq<u8>) -> Seq<u8> {
    seq![QUOTE] + sp_esc(t) + seq![QUOTE]
}

/// The bytes `{"id":`.
pub open spec fn lit_id_prefix() -> Seq<u8> {
    seq![LBRACE, QUOTE, 105, 100, QUOTE, COLON]
}

/// The bytes `,"slug":`.
pub open spec fn lit_slug_prefix() -> Seq<u8> {
    seq![COMMA, QUOTE, 115, 108, 117, 103, QUOTE, COLON]
}

/// One serialized project object.
pub open spec fn sp_ser_proj(p: ProjectView) -> Seq<u8> {
    lit_id_prefix() + sp_ser_str(p.id) + lit_slug_prefix() + sp_ser_str(p.slug) + seq![RBRACE]
}

/// The comma-separated serialized items.
pub open spec fn sp_ser_items(ps: Seq<ProjectView>) -> Seq<u8>
    decreases ps.len(),
{
    if ps.len() == 0 {
        Seq::<u8>::empty()
    } else if ps.len() == 1 {
        sp_ser_proj(ps[0])
    } else {
        sp_ser_proj(ps[0]) + seq![COMMA] + sp_ser_items(ps.drop_first())
    }
}

/// The serialized form of a project list.
pub open spec fn sp_serialize(ps: Seq<ProjectView>) -> Seq<u8> {
    seq![LBRACKET] + sp_ser_items(ps) + seq![RBRACKET]
}

/// Escaping distributes over extending a string by one byte.
proof fn lemma_esc_snoc(u: Seq<u8>, b: u8)
    ensures
        sp_esc(u.push(b)) == sp_esc(u) + sp_esc1(b),
    decreases u.len(),
{
    if u.len() == 0 {
        assert(u.push(b)[0] == b);
        assert(u.push(b).drop_first() =~= Seq::<u8>::empty());
        assert(sp_esc(u.push(b)) == sp_esc1(b) + sp_esc(Seq::<u8>::empty()));
        assert(sp_esc(u.push(b)) =~= sp_esc(u) + sp_esc1(b));
    } else {
        lemma_esc_snoc(u.drop_first(), b);
        assert(u.push(b)[0] == u[0]);
        assert(u.push(b).drop_first() =~= u.drop_first().push(b));
        assert(sp_esc(u.push(b)) == sp_esc1(u[0]) + (sp_esc(u.drop_first()) + sp_esc1(b)));
        assert(sp_esc(u.push(b)) =~= sp_esc(u) + sp_esc1(b));
    }
}

/// Serialization of the items distributes over extending the list by one.
proof fn lemma_ser_items_snoc(u: Seq<ProjectView>, p: ProjectView)
    ensures
        u.len() == 0 ==> sp_ser_items(u.push(p)) == sp_ser_proj(p),
        u.len() > 0 ==> sp_ser_items(u.push(p)) == sp_ser_items(u) + seq![COMMA] + sp_ser_proj(p),
    decreases u.len(),
{
    if u.len() == 0 {
        assert(u.push(p)[0] == p);
        assert(sp_ser_items(u.push(p)) == sp_ser_proj(p));
    } else if u.len() == 1 {
        assert(u.push(p).drop_first() =~= seq![p]);
        assert(sp_ser_items(seq![p]) == sp_ser_proj(p));
        assert(sp_ser_items(u.push(p)) =~= sp_ser_items(u) + seq![COMMA] + sp_ser_proj(p));
    } else {
        lemma_ser_items_snoc(u.drop_first(), p);
        assert(u.push(p).drop_first() =~= u.drop_first().push(p));
        assert(sp_ser_items(u.push(p)) =~= sp_ser_items(u) + seq![COMMA] + sp_ser_proj(p));
    }
}

/// Append the escaped form of `t`.
fn push_escaped(out: &mut Vec<u8>, t: &Vec<u8>)
    ensures
        final(out)@ == old(out)@ + sp_esc(t@),
{
    let n = t.len();
    let mut i: usize = 0;
    while i < n
        invariant
            n == t@.len(),
            i <= n,
            out@ == old(out)@ + sp_esc(t@.subrange(0, i as int)),
        decreases n - i,
    {
        let ghost pre = out@;
        let b = t[i];
        if b == QUOTE {
            out.push(BACKSLASH);
            out.push(QUOTE);
        } else if b == BACKSLASH {
            out.push(BACKSLASH);
            out.push(BACKSLASH);
        } else if b < 32 {
            out.push(BACKSLASH);
            out.push(117);  // u
            out.push(48);  // 0
            out.push(48);  // 0
            let hi = b / 16;
            let lo = b % 16;
            out.push(if hi < 10 { 48 + hi } else { 87 + hi });
            out.push(if lo < 10 { 48 + lo } else { 87 + lo });
        } else {
            out.push(b);
        }
        proof {
            assert(out@ =~= pre + sp_esc1(t@[i as int]));
            lemma_esc_snoc(t@.subrange(0, i as int), t@[i as int]);
            assert(t@.subrange(0, i + 1 as int) =~= t@.subrange(0, i as int).push(t@[i as int]));
            assert(out@ =~= old(out)@ + sp_esc(t@.subrange(0, i + 1 as int)));
        }
        i += 1;
    }
    assert(t@.subrange(0, n as int) =~= t@);
}

/// Append a serialized string token.
fn push_string(out: &mut Vec<u8>, t: &Vec<u8>)
    ensures
        final(out)@ == old(out)@ + sp_ser_str(t@),
{
    out.push(QUOTE);
    push_escaped(out, t);
    out.push(QUOTE);
    assert(out@ =~= old(out)@ + sp_ser_str(t@));
}

/// Append one serialized project object.
fn push_project(out: &mut Vec<u8>, p: &Project)
    ensures
        final(out)@ == old(out)@ + sp_ser_proj(p@),
{
    out.push(LBRACE);
    out.push(QUOTE);
    out.push(105);  // i
    out.push(100);  // d
    out.push(QUOTE);
    out.push(COLON);
    assert(out@ =~= old(out)@ + lit_id_prefix());
    push_string(out, &p.id);
    let ghost mid = out@;
    out.push(COMMA);
    out.push(QUOTE);
    out.push(115);  // s
    out.push(108);  // l
    out.push(117);  // u
    out.push(103);  // g
    out.push(QUOTE);
    out.push(COLON);
    assert(out@ =~= mid + lit_slug_prefix());
    push_string(out, &p.slug);
    out.push(RBRACE);
    assert(out@ =~= old(out)@ + sp_ser_proj(p@));
}

/// The serialized cache form of a project list: a JSON array of objects
/// `{"id":...,"slug":...}` in list order.
pub fn serialize_projects(ps: &Vec<Project>) -> (out: Vec<u8>)
    ensures
        out@ == sp_serialize(list_view(ps@)),
{
    let mut out: Vec<u8> = Vec::new();
    out.push(LBRACKET);
    let n = ps.len();
    let mut i: usize = 0;
    while i < n
        invariant
            n == ps@.len(),
            i <= n,
            out@ == seq![LBRACKET] + sp_ser_items(list_view(ps@).subrange(0, i as int)),
        decreases n - i,
    {
        let ghost pre = out@;
        let ghost done = list_view(ps@).subrange(0, i as int);
        if i > 0 {
            out.push(COMMA);
        }
        push_project(&mut out, &ps[i]);
        proof {
            lemma_ser_items_snoc(done, ps@[i as int]@);
            assert(list_view(ps@).subrange(0, i + 1 as int) =~= done.push(ps@[i as int]@));
            assert(out@ =~= seq![LBRACKET] + sp_ser_items(
                list_view(ps@).subrange(0, i + 1 as int),
            ));
        }
        i += 1;
    }
    out.push(RBRACKET);
    assert(list_view(ps@).subrange(0, n as int) =~= list_view(ps@));
    assert(out@ =~= sp_serialize(list_view(ps@)));
    out
}

/// The image of an optional byte string.
pub open spec fn ov(o: Option<Vec<u8>>) -> Option<Seq<u8>> {
    match o {
        Some(v) => Some(v@),
        None => None,
    }
}

/// First position at or after `i` holding no whitespace.
fn e_ws(s: &Vec<u8>, i: usize) -> (r: usize)
    requires
        i <= s@.len(),
    ensures
        r == sp_ws(s@, i as int),
        i <= r <= s@.len(),
{
    let mut r: usize = i;
    while r < s.len() && (s[r] == 32 || s[r] == 9 || s[r] == 10 || s[r] == 13)
        invariant
            i <= r <= s@.len(),
            sp_ws(s@, i as int) == sp_ws(s@, r as int),
        decreases s@.len() - r,
    {
        r = r + 1;
    }
    r
}

/// Value of an ASCII hex digit.
fn e_hex(b: u8) -> (r: Option<u8>)
    ensures
        match r {
            Some(v) => sp_hex(b) == Some(v as int),
            None => sp_hex(b) == None::<int>,
        },
{
    if 48 <= b && b <= 57 {
        Some(b - 48)
    } else if 97 <= b && b <= 102 {
        Some(b - 87)
    } else if 65 <= b && b <= 70 {
        Some(b - 55)
    } else {
        None
    }
}

/// What a single-character escape stands for.
fn e_esc_char(c: u8) -> (r: Option<u8>)
    ensures
        r == sp_esc_char(c),
{
    if c == QUOTE {
        Some(QUOTE)
    } else if c == BACKSLASH {
        Some(BACKSLASH)
    } else if c == 47 {
        Some(47)
    } else if c == 98 {
        Some(8)
    } else if c == 102 {
        Some(12)
    } else if c == 110 {
        Some(10)
    } else if c == 114 {
        Some(13)
    } else if c == 116 {
        Some(9)
    } else {
        None
    }
}

/// Decode a string body, `i` standing just after the opening quote.
fn e_str_body(s: &Vec<u8>, i: usize) -> (r: Option<(Vec<u8>, usize)>)
    requires
        i <= s@.len(),
        s@.len() < MAX_INPUT,
    ensures
        match r {
            Some((v, j)) => sp_str_body(s@, i as int) == Some((v@, j as int)) && i < j <= s@.len(),
            None => sp_str_body(s@, i as int) == None::<(Seq<u8>, int)>,
        },
{
    let mut acc: Vec<u8> = Vec::new();
    let mut cur: usize = i;
    loop
        invariant
            i <= cur <= s@.len(),
            s@.len() < MAX_INPUT,
            (sp_str_body(s@, i as int) is Some) == (sp_str_body(s@, cur as int) is Some),
            sp_str_body(s@, cur as int) is Some ==> sp_str_body(s@, i as int)->Some_0 == (
            acc@ + sp_str_body(s@, cur as int)->Some_0.0,
            sp_str_body(s@, cur as int)->Some_0.1,
            ),
        decreases s@.len() - cur,
    {
        if cur >= s.len() {
            return None;
        }
        let b = s[cur];
        if b == QUOTE {
            proof {
                assert(sp_str_body(s@, cur as int) == Some((Seq::<u8>::empty(), cur + 1 as int)));
                assert(acc@ + Seq::<u8>::empty() =~= acc@);
            }
            return Some((acc, cur + 1));
        } else if b == BACKSLASH {
            if cur + 1 >= s.len() {
                return None;
            }
            let c = s[cur + 1];
            if c == 117 {
                if cur + 6 > s.len() {
                    return None;
                }
                let h1 = match e_hex(s[cur + 2]) {
                    Some(v) => v,
                    None => {
                        return None;
                    },
                };
                let h2 = match e_hex(s[cur + 3]) {
                    Some(v) => v,
                    None => {
                        return None;
                    },
                };
                let h3 = match e_hex(s[cur + 4]) {
                    Some(v) => v,
                    None => {
                        return None;
                    },
                };
                let h4 = match e_hex(s[cur + 5]) {
                    Some(v) => v,
                    None => {
                        return None;
                    },
                };
                let cp: u32 = (h1 as u32) * 4096 + (h2 as u32) * 256 + (h3 as u32) * 16 + (
                h4 as u32);
                if 0xD800 <= cp && cp < 0xE000 {
                    return None;
                }
                let ghost pre = acc@;
                if cp < 0x80 {
                    acc.push(cp as u8);
                } else if cp < 0x800 {
                    acc.push((192 + cp / 64) as u8);
                    acc.push((128 + cp % 64) as u8);
                } else {
                    acc.push((224 + cp / 4096) as u8);
                    acc.push((128 + (cp / 64) % 64) as u8);
                    acc.push((128 + cp % 64) as u8);
                }
                proof {
                    assert(acc@ =~= pre + sp_utf8(cp as int));
                    lemma_str_body_step(s@, i as int, cur as int, pre, sp_utf8(cp as int), cur + 6);
                }
                cur = cur + 6;
            } else {
                let d = match e_esc_char(c) {
                    Some(v) => v,
                    None => {
                        return None;
                    },
                };
                let ghost pre = acc@;
                acc.push(d);
                proof {
                    assert(acc@ =~= pre + seq![d]);
                    lemma_str_body_step(s@, i as int, cur as int, pre, seq![d], cur + 2);
                }
                cur = cur + 2;
            }
        } else if b < 32 {
            return None;
        } else {
            let ghost pre = acc@;
            acc.push(b);
            proof {
                assert(acc@ =~= pre + seq![b]);
                lemma_str_body_step(s@, i as int, cur as int, pre, seq![b], cur + 1 as int);
            }
            cur = cur + 1;
        }
    }
}

/// Composition step for the string-body loop: if the decode at `cur`
/// yields piece `piece` and continues at `nxt`, the decode from `start`
/// keeps its relation to the accumulator extended by `piece`.
proof fn lemma_str_body_step(s: Seq<u8>, start: int, cur: int, acc: Seq<u8>, piece: Seq<u8>, nxt: int)
    requires
        (sp_str_body(s, start) is Some) == (sp_str_body(s, cur) is Some),
        sp_str_body(s, cur) is Some ==> sp_str_body(s, start)->Some_0 == (
        acc + sp_str_body(s, cur)->Some_0.0,
        sp_str_body(s, cur)->Some_0.1,
        ),
        (sp_str_body(s, cur) is Some) == (sp_str_body(s, nxt) is Some),
        sp_str_body(s, nxt) is Some ==> sp_str_body(s, cur)->Some_0 == (
        piece + sp_str_body(s, nxt)->Some_0.0,
        sp_str_body(s, nxt)->Some_0.1,
        ),
    ensures
        (sp_str_body(s, start) is Some) == (sp_str_body(s, nxt) is Some),
        sp_str_body(s, nxt) is Some ==> sp_str_body(s, start)->Some_0 == (
        (acc + piece) + sp_str_body(s, nxt)->Some_0.0,
        sp_str_body(s, nxt)->Some_0.1,
        ),
{
    if sp_str_body(s, nxt) is Some {
        assert(acc + (piece + sp_str_body(s, nxt)->Some_0.0) =~= (acc + piece) + sp_str_body(
            s,
            nxt,
        )->Some_0.0);
    }
}

/// A complete string token starting at `i`.
fn e_string(s: &Vec<u8>, i: usize) -> (r: Option<(Vec<u8>, usize)>)
    requires
        i <= s@.len(),
        s@.len() < MAX_INPUT,
    ensures
        match r {
            Some((v, j)) => sp_string(s@, i as int) == Some((v@, j as int)) && i < j <= s@.len(),
            None => sp_string(s@, i as int) == None::<(Seq<u8>, int)>,
        },
{
    if i < s.len() && s[i] == QUOTE {
        e_str_body(s, i + 1)
    } else {
        None
    }
}

/// End of a number token starting at `i`.
fn e_skip_num(s: &Vec<u8>, i: usize) -> (r: usize)
    requires
        i <= s@.len(),
    ensures
        r == sp_skip_num(s@, i as int),
        i <= r <= s@.len(),
{
    let mut r: usize = i;
    while r < s.len() && (48 <= s[r] && s[r] <= 57 || s[r] == 45 || s[r] == 43 || s[r] == 46
        || s[r] == 101 || s[r] == 69)
        invariant
            i <= r <= s@.len(),
            sp_skip_num(s@, i as int) == sp_skip_num(s@, r as int),
        decreases s@.len() - r,
    {
        r = r + 1;
    }
    r
}

/// End of an arbitrary JSON value starting at `i`.
fn e_skip_value(s: &Vec<u8>, i: usize, d: usize) -> (r: Option<usize>)
    requires
        i <= s@.len(),
        s@.len() < MAX_INPUT,
    ensures
        match r {
            Some(j) => sp_skip_value(s@, i as int, d as nat) == Some(j as int) && j <= s@.len(),
            None => sp_skip_value(s@, i as int, d as nat) == None::<int>,
        },
    decreases d,
{
    if d == 0 {
        return None;
    }
    if i >= s.len() {
        return None;
    }
    let b = s[i];
    if b == QUOTE {
        match e_string(s, i) {
            Some((v, j)) => Some(j),
            None => None,
        }
    } else if b == LBRACE {
        e_skip_members(s, i + 1, true, d - 1)
    } else if b == LBRACKET {
        e_skip_elems(s, i + 1, true, d - 1)
    } else if b == 116 {
        if i + 4 <= s.len() && s[i + 1] == 114 && s[i + 2] == 117 && s[i + 3] == 101 {
            assert(s@.subrange(i as int, i + 4 as int) =~= word_true());
            Some(i + 4)
        } else {
            proof {
                lemma_no_match(s@, i as int, word_true());
            }
            None
        }
    } else if b == 102 {
        if i + 5 <= s.len() && s[i + 1] == 97 && s[i + 2] == 108 && s[i + 3] == 115 && s[i + 4]
            == 101 {
            assert(s@.subrange(i as int, i + 5 as int) =~= word_false());
            Some(i + 5)
        } else {
            proof {
                lemma_no_match(s@, i as int, word_false());
            }
            None
        }
    } else if b == 110 {
        if i + 4 <= s.len() && s[i + 1] == 117 && s[i + 2] == 108 && s[i + 3] == 108 {
            assert(s@.subrange(i as int, i + 4 as int) =~= word_null());
            Some(i + 4)
        } else {
            proof {
                lemma_no_match(s@, i as int, word_null());
            }
            None
        }
    } else if b == 45 || 48 <= b && b <= 57 {
        Some(e_skip_num(s, i))
    } else {
        None
    }
}

/// If a byte of `w` fails to stand in `s` at `i`, the word does not match.
proof fn lemma_no_match(s: Seq<u8>, i: int, w: Seq<u8>)
    requires
        !(i + w.len() <= s.len()) || exists|k: int|
            0 <= k < w.len() && #[trigger] s[i + k] != w[k],
    ensures
        !sp_match(s, i, w),
{
    if sp_match(s, i, w) {
        assert forall|k: int| 0 <= k < w.len() implies #[trigger] s[i + k] == w[k] by {
            assert(s.subrange(i, i + w.len() as int)[k] == s[i + k]);
        }
    }
}

/// End of the items of a skipped array.
fn e_skip_elems(s: &Vec<u8>, i: usize, first: bool, d: usize) -> (r: Option<usize>)
    requires
        i <= s@.len(),
        s@.len() < MAX_INPUT,
    ensures
        match r {
            Some(j) => sp_skip_elems(s@, i as int, first, d as nat) == Some(j as int) && j
                <= s@.len(),
            None => sp_skip_elems(s@, i as int, first, d as nat) == None::<int>,
        },
    decreases d,
{
    if d == 0 {
        return None;
    }
    let k = e_ws(s, i);
    if k >= s.len() {
        return None;
    }
    if s[k] == RBRACKET {
        return Some(k + 1);
    }
    let p: usize = if first {
        k
    } else if s[k] == COMMA {
        e_ws(s, k + 1)
    } else {
        return None;
    };
    match e_skip_value(s, p, d - 1) {
        Some(j) => e_skip_elems(s, j, false, d - 1),
        None => None,
    }
}

/// End of the members of a skipped object.
fn e_skip_members(s: &Vec<u8>, i: usize, first: bool, d: usize) -> (r: Option<usize>)
    requires
        i <= s@.len(),
        s@.len() < MAX_INPUT,
    ensures
        match r {
            Some(j) => sp_skip_members(s@, i as int, first, d as nat) == Some(j as int) && j
                <= s@.len(),
            None => sp_skip_members(s@, i as int, first, d as nat) == None::<int>,
        },
    decreases d,
{
    if d == 0 {
        return None;
    }
    let k = e_ws(s, i);
    if k >= s.len() {
        return None;
    }
    if s[k] == RBRACE {
        return Some(k + 1);
    }
    let p: usize = if first {
        k
    } else if s[k] == COMMA {
        e_ws(s, k + 1)
    } else {
        return None;
    };
    let j = match e_string(s, p) {
        Some((key, j)) => j,
        None => {
            return None;
        },
    };
    let c = e_ws(s, j);
    if c >= s.len() || s[c] != COLON {
        return None;
    }
    let m = e_ws(s, c + 1);
    match e_skip_value(s, m, d - 1) {
        Some(j2) => e_skip_members(s, j2, false, d - 1),
        None => None,
    }
}

/// The members of one project object.
fn e_members(
    s: &Vec<u8>,
    i: usize,
    id: Option<Vec<u8>>,
    slug: Option<Vec<u8>>,
    first: bool,
    d: usize,
) -> (r: Option<(Project, usize)>)
    requires
        i <= s@.len(),
        s@.len() < MAX_INPUT,
    ensures
        match r {
            Some((p, j)) => sp_members(s@, i as int, ov(id), ov(slug), first, d as nat) == Some(
                (p@, j as int),
            ) && j <= s@.len(),
            None => sp_members(s@, i as int, ov(id), ov(slug), first, d as nat) == None::<
                (ProjectView, int),
            >,
        },
    decreases d,
{
    if d == 0 {
        return None;
    }
    let k = e_ws(s, i);
    if k >= s.len() {
        return None;
    }
    if s[k] == RBRACE {
        match (id, slug) {
            (Some(a), Some(b)) => {
                return Some((Project { id: a, slug: b }, k + 1));
            },
            _ => {
                return None;
            },
        }
    }
    let p: usize = if first {
        k
    } else if s[k] == COMMA {
        e_ws(s, k + 1)
    } else {
        return None;
    };
    let (key, j) = match e_string(s, p) {
        Some(kj) => kj,
        None => {
            return None;
        },
    };
    let c = e_ws(s, j);
    if c >= s.len() || s[c] != COLON {
        return None;
    }
    let m = e_ws(s, c + 1);
    let is_id = key.len() == 2 && key[0] == 105 && key[1] == 100;
    let is_slug = key.len() == 4 && key[0] == 115 && key[1] == 108 && key[2] == 117 && key[3]
        == 103;
    proof {
        if is_id {
            assert(key@ =~= word_id());
        } else {
            assert(key@ != word_id()) by {
                if key@ == word_id() {
                    assert(key@.len() == 2 && key@[0] == 105 && key@[1] == 100);
                }
            }
        }
        if is_slug {
            assert(key@ =~= word_slug());
        } else {
            assert(key@ != word_slug()) by {
                if key@ == word_slug() {
                    assert(key@.len() == 4 && key@[0] == 115 && key@[1] == 108 && key@[2] == 117
                        && key@[3] == 103);
                }
            }
        }
    }
    if is_id {
        if id.is_some() {
            return None;
        }
        match e_string(s, m) {
            Some((v, j2)) => e_members(s, j2, Some(v), slug, false, d - 1),
            None => None,
        }
    } else if is_slug {
        if slug.is_some() {
            return None;
        }
        match e_string(s, m) {
            Some((v, j2)) => e_members(s, j2, id, Some(v), false, d - 1),
            None => None,
        }
    } else {
        match e_skip_value(s, m, d - 1) {
            Some(j2) => e_members(s, j2, id, slug, false, d - 1),
            None => None,
        }
    }
}

/// One project object starting at `i`.
fn e_project(s: &Vec<u8>, i: usize, d: usize) -> (r: Option<(Project, usize)>)
    requires
        i <= s@.len(),
        s@.len() < MAX_INPUT,
    ensures
        match r {
            Some((p, j)) => sp_project(s@, i as int, d as nat) == Some((p@, j as int)) && j
                <= s@.len(),
            None => sp_project(s@, i as int, d as nat) == None::<(ProjectView, int)>,
        },
{
    if d > 0 && i < s.len() && s[i] == LBRACE {
        e_members(s, i + 1, None, None, true, d - 1)
    } else {
        None
    }
}

/// The items of the top-level array.
fn e_elems(s: &Vec<u8>, i: usize, first: bool, d: usize) -> (r: Option<(Vec<Project>, usize)>)
    requires
        i <= s@.len(),
        s@.len() < MAX_INPUT,
    ensures
        match r {
            Some((ps, j)) => sp_elems(s@, i as int, first, d as nat) == Some(
                (list_view(ps@), j as int),
            ) && j <= s@.len(),
            None => sp_elems(s@, i as int, first, d as nat) == None::<(Seq<ProjectView>, int)>,
        },
    decreases d,
{
    if d == 0 {
        return None;
    }
    let k = e_ws(s, i);
    if k >= s.len() {
        return None;
    }
    if s[k] == RBRACKET {
        let ps: Vec<Project> = Vec::new();
        assert(list_view(ps@) =~= Seq::<ProjectView>::empty());
        return Some((ps, k + 1));
    }
    let p: usize = if first {
        k
    } else if s[k] == COMMA {
        e_ws(s, k + 1)
    } else {
        return None;
    };
    let (proj, j) = match e_project(s, p, d - 1) {
        Some(pj) => pj,
        None => {
            return None;
        },
    };
    match e_elems(s, j, false, d - 1) {
        Some((mut rest, e)) => {
            let ghost old_rest = rest@;
            rest.insert(0, proj);
            assert(list_view(rest@) =~= seq![proj@] + list_view(old_rest));
            Some((rest, e))
        },
        None => None,
    }
}

/// A slice equal to a concatenation splits into slices of the parts.
proof fn lemma_slice_parts(s: Seq<u8>, i: int, a: Seq<u8>, b: Seq<u8>)
    requires
        0 <= i,
        i + a.len() + b.len() <= s.len(),
        s.subrange(i, i + a.len() + b.len()) == a + b,
    ensures
        s.subrange(i, i + a.len()) == a,
        s.subrange(i + a.len(), i + a.len() + b.len()) == b,
{
    assert(s.subrange(i, i + a.len()) =~= a) by {
        assert forall|k: int| 0 <= k < a.len() implies s.subrange(i, i + a.len())[k] == a[k] by {
            assert(s.subrange(i, i + a.len() + b.len())[k] == s[i + k]);
        }
    }
    assert(s.subrange(i + a.len(), i + a.len() + b.len()) =~= b) by {
        assert forall|k: int| 0 <= k < b.len() implies s.subrange(
            i + a.len(),
            i + a.len() + b.len(),
        )[k] == b[k] by {
            assert(s.subrange(i, i + a.len() + b.len())[a.len() + k] == s[i + a.len() + k]);
        }
    }
}

/// A byte of a matched slice stands in the input.
proof fn lemma_slice_byte(s: Seq<u8>, i: int, w: Seq<u8>, k: int)
    requires
        0 <= i,
        i + w.len() <= s.len(),
        s.subrange(i, i + w.len()) == w,
        0 <= k < w.len(),
    ensures
        s[i + k] == w[k],
{
    assert(s.subrange(i, i + w.len())[k] == s[i + k]);
}

/// The decode of an escaped string followed by a closing quote yields
/// the original string and stops just after the quote.
proof fn lemma_esc_parse(s: Seq<u8>, i: int, t: Seq<u8>)
    requires
        0 <= i,
        i + sp_esc(t).len() + 1 <= s.len(),
        s.subrange(i, i + sp_esc(t).len()) == sp_esc(t),
        s[i + sp_esc(t).len()] == QUOTE,
    ensures
        sp_str_body(s, i) == Some((t, i + sp_esc(t).len() + 1)),
    decreases t.len(),
{
    if t.len() == 0 {
        assert(sp_esc(t).len() == 0);
        assert(s[i] == QUOTE);
        assert(t =~= Seq::<u8>::empty());
    } else {
        let b = t[0];
        let t2 = t.drop_first();
        let e1 = sp_esc1(b);
        let l1 = e1.len();
        let le = sp_esc(t).len();
        assert(sp_esc(t) == e1 + sp_esc(t2));
        lemma_slice_parts(s, i, e1, sp_esc(t2));
        assert(t =~= seq![b] + t2);
        lemma_esc_parse(s, i + l1, t2);
        if b == QUOTE {
            lemma_slice_byte(s, i, e1, 0);
            lemma_slice_byte(s, i, e1, 1);
            assert(s[i] == BACKSLASH && s[i + 1] == QUOTE);
            assert(sp_esc_char(QUOTE) == Some(QUOTE));
            assert(sp_str_body(s, i) == Some((seq![b] + t2, i + le + 1)));
        } else if b == BACKSLASH {
            lemma_slice_byte(s, i, e1, 0);
            lemma_slice_byte(s, i, e1, 1);
            assert(s[i] == BACKSLASH && s[i + 1] == BACKSLASH);
            assert(sp_esc_char(BACKSLASH) == Some(BACKSLASH));
            assert(sp_str_body(s, i) == Some((seq![b] + t2, i + le + 1)));
        } else if b < 32 {
            lemma_slice_byte(s, i, e1, 0);
            lemma_slice_byte(s, i, e1, 1);
            lemma_slice_byte(s, i, e1, 2);
            lemma_slice_byte(s, i, e1, 3);
            lemma_slice_byte(s, i, e1, 4);
            lemma_slice_byte(s, i, e1, 5);
            assert(s[i] == BACKSLASH && s[i + 1] == 117 && s[i + 2] == 48 && s[i + 3] == 48);
            assert(s[i + 4] == sp_hex_digit(b / 16) && s[i + 5] == sp_hex_digit(b % 16));
            assert(b / 16 < 2 && b % 16 < 16);
            assert(sp_hex(48) == Some(0int));
            assert(sp_hex(sp_hex_digit(b / 16)) == Some((b / 16) as int));
            assert(sp_hex(sp_hex_digit(b % 16)) == Some((b % 16) as int));
            let cp = 0 * 4096 + 0 * 256 + ((b / 16) as int) * 16 + ((b % 16) as int);
            assert(cp == b as int) by (nonlinear_arith)
                requires
                    cp == ((b / 16) as int) * 16 + ((b % 16) as int),
            ;
            assert(!(0xD800 <= cp < 0xE000));
            assert(sp_utf8(cp) == seq![b]) by {
                assert(cp < 0x80);
                assert(cp as u8 == b);
                assert(sp_utf8(cp) =~= seq![b]);
            }
            assert(sp_str_body(s, i) == Some((seq![b] + t2, i + le + 1)));
        } else {
            lemma_slice_byte(s, i, e1, 0);
            assert(s[i] == b);
            assert(sp_str_body(s, i) == Some((seq![b] + t2, i + le + 1)));
        }
    }
}

/// The parse of a serialized string token yields the original string.
proof fn lemma_ser_str_parse(s: Seq<u8>, i: int, t: Seq<u8>)
    requires
        0 <= i,
        i + sp_ser_str(t).len() <= s.len(),
        s.subrange(i, i + sp_ser_str(t).len()) == sp_ser_str(t),
    ensures
        sp_string(s, i) == Some((t, i + sp_ser_str(t).len())),
{
    let le = sp_esc(t).len();
    assert(sp_ser_str(t) == seq![QUOTE] + (sp_esc(t) + seq![QUOTE]));
    lemma_slice_parts(s, i, seq![QUOTE], sp_esc(t) + seq![QUOTE]);
    lemma_slice_byte(s, i, seq![QUOTE], 0);
    lemma_slice_parts(s, i + 1, sp_esc(t), seq![QUOTE]);
    lemma_slice_byte(s, i + 1 + le, seq![QUOTE], 0);
    lemma_esc_parse(s, i + 1, t);
}

/// Escaping a string free of quotes, backslashes and control bytes
/// keeps it as it stands.
proof fn lemma_esc_plain(t: Seq<u8>)
    requires
        forall|k: int| 0 <= k < t.len() ==> 32 <= #[trigger] t[k] && t[k] != QUOTE && t[k]
            != BACKSLASH,
    ensures
        sp_esc(t) == t,
    decreases t.len(),
{
    if t.len() == 0 {
        assert(sp_esc(t) =~= t);
    } else {
        lemma_esc_plain(t.drop_first());
        assert(t[0] == t[0]);
        assert(sp_esc(t) =~= t);
    }
}

/// The parse of one serialized project object yields the original
/// project and stops just after its closing brace.
#[verifier::rlimit(60)]
proof fn lemma_proj_parse(s: Seq<u8>, i: int, p: ProjectView, d: nat)
    requires
        0 <= i,
        i + sp_ser_proj(p).len() <= s.len(),
        s.subrange(i, i + sp_ser_proj(p).len()) == sp_ser_proj(p),
        d >= 4,
    ensures
        sp_project(s, i, d) == Some((p, i + sp_ser_proj(p).len())),
{
    let w = sp_ser_proj(p);
    let eid = sp_ser_str(p.id);
    let eslug = sp_ser_str(p.slug);
    let l1 = eid.len();
    let l2 = eslug.len();
    // peel the five parts
    assert(w == lit_id_prefix() + (eid + (lit_slug_prefix() + (eslug + seq![RBRACE])))) by {
        assert(w =~= lit_id_prefix() + (eid + (lit_slug_prefix() + (eslug + seq![RBRACE]))));
    }
    lemma_slice_parts(s, i, lit_id_prefix(), eid + (lit_slug_prefix() + (eslug + seq![RBRACE])));
    lemma_slice_parts(s, i + 6, eid, lit_slug_prefix() + (eslug + seq![RBRACE]));
    lemma_slice_parts(s, i + 6 + l1, lit_slug_prefix(), eslug + seq![RBRACE]);
    lemma_slice_parts(s, i + 6 + l1 + 8, eslug, seq![RBRACE]);
    lemma_slice_byte(s, i + 6 + l1 + 8 + l2, seq![RBRACE], 0);
    lemma_slice_byte(s, i, lit_id_prefix(), 0);
    lemma_slice_byte(s, i, lit_id_prefix(), 1);
    lemma_slice_byte(s, i, lit_id_prefix(), 2);
    lemma_slice_byte(s, i, lit_id_prefix(), 3);
    lemma_slice_byte(s, i, lit_id_prefix(), 4);
    lemma_slice_byte(s, i, lit_id_prefix(), 5);
    lemma_slice_byte(s, i + 6 + l1, lit_slug_prefix(), 0);
    lemma_slice_byte(s, i + 6 + l1, lit_slug_prefix(), 1);
    lemma_slice_byte(s, i + 6 + l1, lit_slug_prefix(), 2);
    lemma_slice_byte(s, i + 6 + l1, lit_slug_prefix(), 3);
    lemma_slice_byte(s, i + 6 + l1, lit_slug_prefix(), 4);
    lemma_slice_byte(s, i + 6 + l1, lit_slug_prefix(), 5);
    lemma_slice_byte(s, i + 6 + l1, lit_slug_prefix(), 6);
    lemma_slice_byte(s, i + 6 + l1, lit_slug_prefix(), 7);
    // the literal key tokens are serialized strings
    lemma_esc_plain(word_id());
    lemma_esc_plain(word_slug());
    assert(sp_ser_str(word_id()) =~= seq![QUOTE, 105u8, 100, QUOTE]);
    assert(sp_ser_str(word_slug()) =~= seq![QUOTE, 115u8, 108, 117, 103, QUOTE]);
    assert(s.subrange(i + 1, i + 5) =~= sp_ser_str(word_id()));
    assert(s.subrange(i + 6 + l1 + 1, i + 6 + l1 + 7) =~= sp_ser_str(word_slug()));
    lemma_ser_str_parse(s, i + 1, word_id());
    lemma_ser_str_parse(s, i + 6 + l1 + 1, word_slug());
    lemma_ser_str_parse(s, i + 6, p.id);
    lemma_ser_str_parse(s, i + 6 + l1 + 8, p.slug);
    // walk the members
    assert(s[i] == LBRACE);
    assert(sp_ws(s, i + 1) == i + 1);
    assert(sp_ws(s, i + 5) == i + 5);
    assert(s[i + 5] == COLON);
    assert(sp_ws(s, i + 6) == i + 6) by {
        lemma_slice_byte(s, i + 6, eid, 0);
        assert(eid[0] == QUOTE);
    }
    assert(word_id() != word_slug());
    let b0 = i + 6 + l1;
    assert(sp_ws(s, b0) == b0);
    assert(s[b0] == COMMA);
    assert(sp_ws(s, b0 + 1) == b0 + 1);
    assert(sp_ws(s, b0 + 7) == b0 + 7);
    assert(s[b0 + 7] == COLON);
    assert(sp_ws(s, b0 + 8) == b0 + 8) by {
        lemma_slice_byte(s, b0 + 8, eslug, 0);
        assert(eslug[0] == QUOTE);
    }
    let r0 = b0 + 8 + l2;
    assert(sp_ws(s, r0) == r0);
    assert(s[r0] == RBRACE);
    assert(sp_members(s, r0, Some(p.id), Some(p.slug), false, (d - 3) as nat) == Some(
        (ProjectView { id: p.id, slug: p.slug }, r0 + 1),
    ));
    assert(ProjectView { id: p.id, slug: p.slug } =~= p);
    assert(sp_members(s, b0 + 8 + l2, Some(p.id), Some(p.slug), false, (d - 3) as nat) == Some(
        (p, i + w.len()),
    ));
    assert(sp_members(s, b0, Some(p.id), None, false, (d - 2) as nat) == Some((p, i + w.len())));
    assert(sp_members(s, i + 1, None, None, true, (d - 1) as nat) == Some((p, i + w.len())));
}

/// The serialized items are at least as many bytes as there are items.
proof fn lemma_items_len(ps: Seq<ProjectView>)
    ensures
        sp_ser_items(ps).len() >= ps.len(),
    decreases ps.len(),
{
    if ps.len() > 1 {
        lemma_items_len(ps.drop_first());
    }
}

/// The parse of serialized items followed by a closing bracket yields
/// the original items.  For a continuation (`first` false) a leading
/// comma stands before the items.
proof fn lemma_elems_parse(s: Seq<u8>, i: int, ps: Seq<ProjectView>, first: bool, d: nat)
    requires
        0 <= i,
        ({
            let tail = if ps.len() == 0 {
                Seq::<u8>::empty()
            } else if first {
                sp_ser_items(ps)
            } else {
                seq![COMMA] + sp_ser_items(ps)
            };
            &&& i + tail.len() + 1 <= s.len()
            &&& s.subrange(i, i + tail.len()) == tail
            &&& s[i + tail.len()] == RBRACKET
        }),
        d >= ps.len() + 5,
    ensures
        ({
            let tail = if ps.len() == 0 {
                Seq::<u8>::empty()
            } else if first {
                sp_ser_items(ps)
            } else {
                seq![COMMA] + sp_ser_items(ps)
            };
            sp_elems(s, i, first, d) == Some((ps, i + tail.len() + 1))
        }),
    decreases ps.len(),
{
    let tail = if ps.len() == 0 {
        Seq::<u8>::empty()
    } else if first {
        sp_ser_items(ps)
    } else {
        seq![COMMA] + sp_ser_items(ps)
    };
    if ps.len() == 0 {
        assert(sp_ws(s, i) == i);
        assert(s[i] == RBRACKET);
        assert(sp_elems(s, i, first, d) == Some((Seq::<ProjectView>::empty(), i + 1)));
        assert(ps =~= Seq::<ProjectView>::empty());
    } else {
        let p0 = ps[0];
        let rest = ps.drop_first();
        let w = sp_ser_proj(p0);
        let tail2 = if rest.len() == 0 {
            Seq::<u8>::empty()
        } else {
            seq![COMMA] + sp_ser_items(rest)
        };
        assert(sp_ser_items(ps) == w + tail2) by {
            if ps.len() == 1 {
                assert(sp_ser_items(ps) =~= w + tail2);
            } else {
                assert(sp_ser_items(ps) =~= w + tail2);
            }
        }
        let base = if first {
            i
        } else {
            i + 1
        };
        if !first {
            assert(tail == seq![COMMA] + (w + tail2)) by {
                assert(tail =~= seq![COMMA] + (w + tail2));
            }
            lemma_slice_parts(s, i, seq![COMMA], w + tail2);
            lemma_slice_byte(s, i, seq![COMMA], 0);
            assert(s[i] == COMMA);
            assert(sp_ws(s, i) == i);
        }
        lemma_slice_parts(s, base, w, tail2);
        lemma_slice_byte(s, base, w, 0);
        assert(w[0] == LBRACE);
        assert(s[base] == LBRACE);
        assert(sp_ws(s, base) == base);
        lemma_proj_parse(s, base, p0, (d - 1) as nat);
        let j = base + w.len();
        lemma_elems_parse(s, j, rest, false, (d - 1) as nat);
        assert(j + tail2.len() + 1 == i + tail.len() + 1);
        assert(sp_elems(s, j, false, (d - 1) as nat) == Some((rest, i + tail.len() + 1)));
        assert(seq![p0] + rest =~= ps);
        if first {
            assert(sp_elems(s, i, first, d) == Some((ps, i + tail.len() + 1)));
        } else {
            assert(sp_ws(s, i + 1) == i + 1);
            assert(sp_elems(s, i, first, d) == Some((ps, i + tail.len() + 1)));
        }
    }
}

/// Round trip: the parse of a serialized project list is exactly that
/// list, for every list whose serialized form stays under the input
/// bound.
pub proof fn lemma_round_trip(ps: Seq<ProjectView>)
    requires
        sp_serialize(ps).len() < MAX_INPUT,
    ensures
        sp_parse(sp_serialize(ps)) == Some(ps),
{
    let s = sp_serialize(ps);
    let items = sp_ser_items(ps);
    assert(s == seq![LBRACKET] + (items + seq![RBRACKET])) by {
        assert(s =~= seq![LBRACKET] + (items + seq![RBRACKET]));
    }
    assert(s.subrange(0, s.len() as int) =~= s);
    lemma_slice_parts(s, 0, seq![LBRACKET], items + seq![RBRACKET]);
    lemma_slice_byte(s, 0, seq![LBRACKET], 0);
    lemma_slice_parts(s, 1, items, seq![RBRACKET]);
    lemma_slice_byte(s, 1 + items.len() as int, seq![RBRACKET], 0);
    assert(s[0] == LBRACKET);
    assert(sp_ws(s, 0) == 0);
    lemma_items_len(ps);
    assert(sp_fuel(s.len()) >= ps.len() + 5);
    if ps.len() == 0 {
        assert(items =~= Seq::<u8>::empty());
    }
    lemma_elems_parse(s, 1, ps, true, sp_fuel(s.len()));
    assert(sp_elems(s, 1, true, sp_fuel(s.len())) == Some((ps, s.len() as int)));
    assert(sp_ws(s, s.len() as int) == s.len());
}

/// Parse a JSON document as a project list.
///
/// Succeeds exactly on the inputs the grammar `sp_parse` accepts, and
/// then returns exactly the list the grammar denotes.
pub fn parse_projects(s: &Vec<u8>) -> (r: Option<Vec<Project>>)
    ensures
        match r {
            Some(ps) => sp_parse(s@) == Some(list_view(ps@)),
            None => sp_parse(s@) == None::<Seq<ProjectView>>,
        },
{
    if s.len() >= MAX_INPUT {
        return None;
    }
    let i = e_ws(s, 0);
    if i >= s.len() || s[i] != LBRACKET {
        return None;
    }
    let d: usize = 2 * s.len() + 8;
    assert(d as nat == sp_fuel(s@.len()));
    match e_elems(s, i + 1, true, d) {
        Some((ps, e)) => {
            let f = e_ws(s, e);
            if f == s.len() {
                Some(ps)
            } else {
                None
            }
        },
        None => None,
    }
}

} // verus!
