//! The structure of CXF stroke fonts: which glyph each line and arc
//! command of the file belongs to.
use vstd::prelude::*;
use crate::font::FontError;
use crate::text::{
    all_digits, chars_of, char_is_ws, digits_value, drop_plus, find, find_chars, is_digit,
    is_ws, lemma_find_bounds, lines, lines_of, seqs_view, string_from_chars, sub_chars, trim,
    trim_chars,
};

verus! {

/// The number of UTF-8 bytes that encode `c`.
pub open spec fn utf8_len(c: char) -> int {
    let u = c as u32;
    if u < 0x80 {
        1
    } else if u < 0x800 {
        2
    } else if u < 0x10000 {
        3
    } else {
        4
    }
}

/// The number of UTF-8 bytes that encode `s`.
pub open spec fn utf8_bytes(s: Seq<char>) -> int
    decreases s.len(),
{
    if s.len() == 0 {
        0
    } else {
        utf8_bytes(s.drop_last()) + utf8_len(s.last())
    }
}

/// A hexadecimal digit, in either case.
pub open spec fn is_hex(c: char) -> bool {
    is_digit(c) || (97 <= c as u32 <= 102) || (65 <= c as u32 <= 70)
}

/// The value of a hexadecimal digit.
pub open spec fn hex_digit(c: char) -> int {
    let u = c as u32;
    if u <= 57 {
        u - 48
    } else if u <= 70 {
        u - 55
    } else {
        u - 87
    }
}

/// Every character is a hexadecimal digit.
pub open spec fn all_hex(s: Seq<char>) -> bool {
    forall|i: int| 0 <= i < s.len() ==> is_hex(#[trigger] s[i])
}

/// The value of a string of hexadecimal digits.
pub open spec fn hex_value(s: Seq<char>) -> int
    decreases s.len(),
{
    if s.len() == 0 {
        0
    } else {
        hex_value(s.drop_last()) * 16 + hex_digit(s.last())
    }
}

/// What `u32::from_str_radix(s, 16)` accepts: an optional `+`, then one or
/// more hexadecimal digits whose value fits in a `u32`.
pub open spec fn parse_hex_u32(s: Seq<char>) -> Option<u32> {
    let d = drop_plus(s);
    if d.len() > 0 && all_hex(d) && hex_value(d) <= u32::MAX {
        Some(hex_value(d) as u32)
    } else {
        None
    }
}

/// The key and the text after it of a glyph header `[key] ...`: the text
/// starts with `[`, and the key runs to the first `]`.
pub open spec fn header_parts(t: Seq<char>) -> Option<(Seq<char>, Seq<char>)> {
    if t.len() == 0 || t[0] != '[' {
        None
    } else {
        match find(t.drop_first(), seq![']']) {
            Some(p) => Some((t.drop_first().take(p), t.drop_first().skip(p + 1))),
            None => None,
        }
    }
}

/// The character code a glyph header names: a header is a key in brackets
/// followed by whitespace; a key of one character names that character,
/// and a key of four hexadecimal digits, after one leading character when
/// the key is five bytes long, names that code.
pub open spec fn cxf_header(t: Seq<char>) -> Option<u32> {
    match header_parts(t) {
        Some((key, after)) => if after.len() == 0 || !is_ws(after[0]) {
            None
        } else if key.len() == 1 {
            Some(key[0] as u32)
        } else {
            let hex = if utf8_bytes(key) == 5 {
                key.drop_first()
            } else {
                key
            };
            if utf8_bytes(hex) == 4 {
                parse_hex_u32(hex)
            } else {
                None
            }
        },
        None => None,
    }
}

/// Reading the header `t` would cut a five-byte key inside its first
/// character, which the format does not allow.
pub open spec fn header_cuts_char(t: Seq<char>) -> bool {
    match header_parts(t) {
        Some((key, after)) => after.len() > 0 && is_ws(after[0]) && key.len() != 1 && utf8_bytes(
            key,
        ) == 5 && key[0] as u32 >= 0x80,
        None => false,
    }
}

/// A drawing command of a glyph, as its whole line: `L` for a line and `A`
/// for an arc.
#[derive(Debug, Clone, PartialEq, Eq)]
pub enum CxfCommand {
    Line(String),
    Arc(String),
}

/// A drawing command with its line as characters.
pub enum CxfCommandView {
    Line(Seq<char>),
    Arc(Seq<char>),
}

impl View for CxfCommand {
    type V = CxfCommandView;

    open spec fn view(&self) -> CxfCommandView {
        match self {
            CxfCommand::Line(s) => CxfCommandView::Line(s@),
            CxfCommand::Arc(s) => CxfCommandView::Arc(s@),
        }
    }
}

/// The commands of `s` as plain values.
pub open spec fn commands_view(s: Seq<CxfCommand>) -> Seq<CxfCommandView> {
    Seq::new(s.len(), |i: int| s[i]@)
}

/// A glyph of a CXF font: its character code and its commands in order.
#[derive(Debug, Clone, PartialEq, Eq)]
pub struct CxfGlyph {
    pub key: u32,
    pub commands: Vec<CxfCommand>,
}

/// The glyphs of a CXF font in file order, and the commands that come
/// before any glyph header when the file has none.
#[derive(Debug, Clone, PartialEq, Eq)]
pub struct CxfFont {
    pub glyphs: Vec<CxfGlyph>,
    pub unassigned: Vec<CxfCommand>,
}

/// What a trimmed line of a CXF file is.
pub enum CxfLine {
    /// Blank, a `#` comment, or anything else that is not read.
    Skip,
    /// A glyph header naming a character code.
    Header(u32),
    /// A drawing command.
    Command(CxfCommandView),
}

/// What the trimmed line `t` is.
pub open spec fn cxf_line(t: Seq<char>) -> CxfLine {
    if t.len() == 0 || t[0] == '#' {
        CxfLine::Skip
    } else if cxf_header(t) is Some {
        CxfLine::Header(cxf_header(t)->0)
    } else if t.len() >= 2 && t[0] == 'L' && t[1] == ' ' {
        CxfLine::Command(CxfCommandView::Line(t))
    } else if t.len() >= 2 && t[0] == 'A' && t[1] == ' ' {
        CxfLine::Command(CxfCommandView::Arc(t))
    } else {
        CxfLine::Skip
    }
}

/// The reading state after the lines `ls`: the finished glyphs, the key of
/// the glyph being read, and the commands read since the last glyph was
/// finished. Commands before the first header join the first glyph.
pub open spec fn cxf_state(ls: Seq<Seq<char>>) -> (Seq<(u32, Seq<CxfCommandView>)>, Option<u32>, Seq<CxfCommandView>)
    decreases ls.len(),
{
    if ls.len() == 0 {
        (seq![], None, seq![])
    } else {
        let (gs, key, cur) = cxf_state(ls.drop_last());
        match cxf_line(trim(ls.last())) {
            CxfLine::Skip => (gs, key, cur),
            CxfLine::Header(k) => match key {
                Some(old) => (gs.push((old, cur)), Some(k), seq![]),
                None => (gs, Some(k), cur),
            },
            CxfLine::Command(c) => (gs, key, cur.push(c)),
        }
    }
}

/// The glyphs and unassigned commands of a CXF text.
pub open spec fn cxf_structure(input: Seq<char>) -> (Seq<(u32, Seq<CxfCommandView>)>, Seq<CxfCommandView>) {
    let (gs, key, cur) = cxf_state(lines(input));
    match key {
        Some(k) => (gs.push((k, cur)), seq![]),
        None => (gs, cur),
    }
}

/// The glyphs of `f` as plain values.
pub open spec fn glyphs_view(g: Seq<CxfGlyph>) -> Seq<(u32, Seq<CxfCommandView>)> {
    Seq::new(g.len(), |i: int| (g[i].key, commands_view(g[i].commands@)))
}

/// The number of UTF-8 bytes of `s`, or 6 when there are more.
fn utf8_bytes_upto6(s: &[char]) -> (r: usize)
    ensures
        r == if utf8_bytes(s@) > 6 {
            6
        } else {
            utf8_bytes(s@)
        },
{
    let mut total: usize = 0;
    let mut i: usize = 0;
    while i < s.len()
        invariant
            i <= s.len(),
            total == utf8_bytes(s@.take(i as int)),
            total <= 6,
        decreases s.len() - i,
    {
        let u = s[i] as u32;
        let l: usize = if u < 0x80 {
            1
        } else if u < 0x800 {
            2
        } else if u < 0x10000 {
            3
        } else {
            4
        };
        assert(s@.take(i + 1).drop_last() =~= s@.take(i as int));
        proof {
            lemma_utf8_bytes_mono(s@, i + 1);
        }
        if total + l > 6 {
            return 6;
        }
        total = total + l;
        i = i + 1;
    }
    assert(s@.take(s.len() as int) =~= s@);
    total
}

proof fn lemma_utf8_bytes_mono(s: Seq<char>, j: int)
    requires
        0 <= j <= s.len(),
    ensures
        utf8_bytes(s.take(j)) <= utf8_bytes(s),
        utf8_bytes(s.take(j)) >= 0,
    decreases s.len() - j,
{
    if j < s.len() {
        lemma_utf8_bytes_mono(s, j + 1);
        assert(s.take(j + 1).drop_last() =~= s.take(j));
        lemma_utf8_bytes_nonneg(s.take(j));
    } else {
        assert(s.take(j) =~= s);
        lemma_utf8_bytes_nonneg(s);
    }
}

proof fn lemma_utf8_bytes_nonneg(s: Seq<char>)
    ensures
        utf8_bytes(s) >= 0,
    decreases s.len(),
{
    if s.len() > 0 {
        lemma_utf8_bytes_nonneg(s.drop_last());
    }
}

proof fn lemma_hex_value_mono(s: Seq<char>, j: int, k: int)
    requires
        all_hex(s),
        0 <= j <= k <= s.len(),
    ensures
        0 <= hex_value(s.take(j)) <= hex_value(s.take(k)),
    decreases k - j,
{
    if j < k {
        lemma_hex_value_mono(s, j, k - 1);
        let t = s.take(k);
        assert(t.drop_last() =~= s.take(k - 1));
        assert(is_hex(s[k - 1]));
    } else {
        lemma_hex_value_nonneg(s.take(j));
    }
}

proof fn lemma_hex_value_nonneg(s: Seq<char>)
    requires
        all_hex(s),
    ensures
        hex_value(s) >= 0,
    decreases s.len(),
{
    if s.len() > 0 {
        lemma_hex_value_nonneg(s.drop_last());
    }
}

/// `u32::from_str_radix(s, 16)` on characters.
fn parse_hex_u32_chars(s: &[char]) -> (r: Option<u32>)
    ensures
        r == parse_hex_u32(s@),
{
    let start: usize = if s.len() > 0 && s[0] == '+' {
        1
    } else {
        0
    };
    let ghost d = drop_plus(s@);
    assert(d =~= s@.skip(start as int));
    if start >= s.len() {
        return None;
    }
    let mut acc: u64 = 0;
    let mut i = start;
    while i < s.len()
        invariant
            start <= i <= s.len(),
            d == s@.skip(start as int),
            d == drop_plus(s@),
            d.len() > 0,
            all_hex(d.take(i - start)),
            acc == hex_value(d.take(i - start)),
            acc <= u32::MAX,
        decreases s.len() - i,
    {
        let c = s[i];
        let u = c as u32;
        assert(d[i - start] == c);
        let v: u64 = if 48 <= u && u <= 57 {
            (u - 48) as u64
        } else if 65 <= u && u <= 70 {
            (u - 55) as u64
        } else if 97 <= u && u <= 102 {
            (u - 87) as u64
        } else {
            assert(!is_hex(d[i - start]));
            assert(!all_hex(d));
            return None;
        };
        let ghost t = d.take(i + 1 - start);
        assert(t.drop_last() =~= d.take(i - start));
        assert(t.last() == c);
        acc = acc * 16 + v;
        i = i + 1;
        assert(acc == hex_value(t));
        assert(all_hex(d.take(i - start)));
        if acc > 0xffff_ffff {
            proof {
                if all_hex(d) {
                    lemma_hex_value_mono(d, i - start, d.len() as int);
                    assert(d.take(d.len() as int) =~= d);
                }
            }
            return None;
        }
    }
    assert(d.take(d.len() as int) =~= d);
    Some(acc as u32)
}

/// The character code named by the glyph header `t`, if it is one.
fn parse_character_header(t: &[char]) -> (r: Option<u32>)
    requires
        !header_cuts_char(t@),
    ensures
        r == cxf_header(t@),
{
    if t.len() == 0 || t[0] != '[' {
        return None;
    }
    let rest = sub_chars(t, 1, t.len());
    assert(rest@ =~= t@.drop_first());
    let close: Vec<char> = vec![']'];
    assert(close@ =~= seq![']']);
    let p = match find_chars(&rest, &close) {
        Some(p) => p,
        None => return None,
    };
    proof {
        lemma_find_bounds(rest@, close@);
    }
    let key = sub_chars(&rest, 0, p);
    let after = sub_chars(&rest, p + 1, rest.len());
    assert(key@ =~= rest@.take(p as int));
    assert(after@ =~= rest@.skip(p + 1));
    if after.len() == 0 || !char_is_ws(after[0]) {
        return None;
    }
    if key.len() == 1 {
        return Some(key[0] as u32);
    }
    let kb = utf8_bytes_upto6(&key);
    let hex = if kb == 5 {
        let h = sub_chars(&key, 1, key.len());
        assert(h@ =~= key@.drop_first());
        h
    } else {
        key
    };
    if utf8_bytes_upto6(&hex) == 4 {
        parse_hex_u32_chars(&hex)
    } else {
        None
    }
}

/// Reads which glyph each drawing command of a CXF text belongs to, asking
/// `cancel` before each line; stops with `Canceled` when the hook asks to.
pub fn cxf_structure_with_cancel<C: Fn() -> bool>(input: &str, cancel: &C) -> (r: Result<
    CxfFont,
    FontError,
>)
    requires
        cancel.requires(()),
        forall|i: int|
            0 <= i < lines(input@).len() ==> !header_cuts_char(trim(#[trigger] lines(input@)[i])),
    ensures
        match r {
            Ok(f) => (glyphs_view(f.glyphs@), commands_view(f.unassigned@)) == cxf_structure(
                input@,
            ),
            Err(e) => e == FontError::Canceled,
        },
        (forall|b: bool| cancel.ensures((), b) ==> !b) ==> r is Ok,
        (forall|b: bool| cancel.ensures((), b) ==> b) && lines(input@).len() > 0 ==> r matches Err(
            FontError::Canceled,
        ),
{
    let chars = chars_of(input);
    let ls = lines_of(chars.as_slice());
    let ghost lv = seqs_view(ls@);
    assert(lv == lines(input@));
    let mut glyphs: Vec<CxfGlyph> = Vec::new();
    let mut key: Option<u32> = None;
    let mut cur: Vec<CxfCommand> = Vec::new();
    let mut i: usize = 0;
    assert(lv.take(0) =~= Seq::<Seq<char>>::empty());
    assert(glyphs_view(glyphs@) =~= Seq::<(u32, Seq<CxfCommandView>)>::empty());
    assert(commands_view(cur@) =~= Seq::<CxfCommandView>::empty());
    while i < ls.len()
        invariant
            (forall|b: bool| cancel.ensures((), b) ==> b) ==> i == 0,
            i <= ls.len(),
            lv == seqs_view(ls@),
            lv == lines(input@),
            cancel.requires(()),
            forall|q: int| 0 <= q < lv.len() ==> !header_cuts_char(trim(#[trigger] lv[q])),
            cxf_state(lv.take(i as int)) == (glyphs_view(glyphs@), key, commands_view(cur@)),
        decreases ls.len() - i,
    {
        if cancel() {
            return Err(FontError::Canceled);
        }
        let ghost pre = lv.take(i as int);
        assert(lv.take(i + 1).drop_last() =~= pre);
        assert(lv.take(i + 1).last() == lv[i as int]);
        assert(ls[i as int]@ == lv[i as int]);
        let t = trim_chars(ls[i].as_slice());
        assert(!header_cuts_char(t@));
        if t.len() == 0 || t[0] == '#' {
        } else {
            match parse_character_header(&t) {
                Some(k) => {
                    match key {
                        Some(old) => {
                            let ghost before = glyphs_view(glyphs@);
                            let ghost oldcur = commands_view(cur@);
                            let mut done: Vec<CxfCommand> = Vec::new();
                            std::mem::swap(&mut done, &mut cur);
                            glyphs.push(CxfGlyph { key: old, commands: done });
                            assert(glyphs_view(glyphs@) =~= before.push((old, oldcur)));
                            assert(commands_view(cur@) =~= Seq::<CxfCommandView>::empty());
                        },
                        None => {},
                    }
                    key = Some(k);
                },
                None => {
                    let is_line = t.len() >= 2 && t[0] == 'L' && t[1] == ' ';
                    let is_arc = t.len() >= 2 && t[0] == 'A' && t[1] == ' ';
                    if is_line || is_arc {
                        let ghost before = commands_view(cur@);
                        let text = string_from_chars(&t);
                        let c = if is_line {
                            CxfCommand::Line(text)
                        } else {
                            CxfCommand::Arc(text)
                        };
                        cur.push(c);
                        assert(commands_view(cur@) =~= before.push(c@));
                    }
                },
            }
        }
        i = i + 1;
    }
    assert(lv.take(ls.len() as int) =~= lv);
    match key {
        Some(k) => {
            let ghost before = glyphs_view(glyphs@);
            let ghost oldcur = commands_view(cur@);
            glyphs.push(CxfGlyph { key: k, commands: cur });
            assert(glyphs_view(glyphs@) =~= before.push((k, oldcur)));
            let unassigned: Vec<CxfCommand> = Vec::new();
            assert(commands_view(unassigned@) =~= Seq::<CxfCommandView>::empty());
            Ok(CxfFont { glyphs, unassigned })
        },
        None => Ok(CxfFont { glyphs, unassigned: cur }),
    }
}

} // verus!
