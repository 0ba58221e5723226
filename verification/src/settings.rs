//! F-Engrave legacy settings: the `(fengrave_set KEY VALUE )` comments that
//! G-code files carry, their parsing, lookup, update and the TCODE encoding
//! of the engraved text.

use vstd::prelude::*;
use crate::text::{
    chars_eq, chars_eq_ignore_case, chars_of, eq_ignore_case, first_where, lemma_first_where_at,
    lemma_first_where_none, lines_of, split_ws, split_ws_of, sub_chars, trim_chars, seqs_view,
    parse_u32, parse_u32_chars, find, is_ws, lines, pad_right, push_all, push_padded_right, push_str,
    string_from_chars, trim, char_from_u32, is_scalar, decimal, pad_left, push_decimal,
    push_padded_left, lemma_decimal, lemma_zeros_value, lemma_ws_scan_word, ws_scan, all_digits,
    digits_value, drop_plus, is_digit,
};

verus! {

/// Default G-code preamble.
pub const DEFAULT_GCODE_PREAMBLE: &'static str = "G17 M3 S3000";

/// Default G-code postamble; `|` separates lines.
pub const DEFAULT_GCODE_POSTAMBLE: &'static str = "M5|M2";

/// One `fengrave_set` entry.
#[derive(Debug, Clone, PartialEq, Eq)]
pub struct LegacySetting {
    pub key: String,
    pub value: String,
    pub quoted: bool,
}

/// The mathematical content of a setting.
pub struct SettingView {
    pub key: Seq<char>,
    pub value: Seq<char>,
    pub quoted: bool,
}

impl View for LegacySetting {
    type V = SettingView;

    open spec fn view(&self) -> SettingView {
        SettingView { key: self.key@, value: self.value@, quoted: self.quoted }
    }
}

/// An ordered list of settings; later entries win on lookup.
#[derive(Debug, Clone, Default, PartialEq, Eq)]
pub struct LegacySettings {
    pub entries: Vec<LegacySetting>,
}

/// The views of a sequence of settings.
pub open spec fn settings_view(es: Seq<LegacySetting>) -> Seq<SettingView> {
    es.map_values(|e: LegacySetting| e@)
}

impl View for LegacySettings {
    type V = Seq<SettingView>;

    open spec fn view(&self) -> Seq<SettingView> {
        settings_view(self.entries@)
    }
}

/// The optional string slice, by its characters.
pub open spec fn opt_str_view(o: Option<&str>) -> Option<Seq<char>> {
    match o {
        Some(s) => Some(s@),
        None => None,
    }
}

/// The value of the last entry whose key is `key`.
pub open spec fn last_value(es: Seq<SettingView>, key: Seq<char>) -> Option<Seq<char>>
    decreases es.len(),
{
    if es.len() == 0 {
        None
    } else if es.last().key == key {
        Some(es.last().value)
    } else {
        last_value(es.drop_last(), key)
    }
}

/// The index of the first entry whose key is `key`.
pub open spec fn first_index(es: Seq<SettingView>, key: Seq<char>) -> Option<int> {
    first_where(es, key_is(key))
}

/// The entry has key `key`.
pub open spec fn key_is(key: Seq<char>) -> spec_fn(SettingView) -> bool {
    |e: SettingView| e.key == key
}

/// The settings after `set_or_push`: the first entry with the key gets the
/// new value and quoting, or a new entry is appended.
pub open spec fn set_or_push_view(
    es: Seq<SettingView>,
    key: Seq<char>,
    value: Seq<char>,
    quoted: bool,
) -> Seq<SettingView> {
    let entry = SettingView { key, value, quoted };
    match first_index(es, key) {
        Some(i) => es.update(i, entry),
        None => es.push(entry),
    }
}

/// `value` with each `"` escaped as `\"`.
pub open spec fn escape_quotes(v: Seq<char>) -> Seq<char>
    decreases v.len(),
{
    if v.len() == 0 {
        seq![]
    } else {
        escape_quotes(v.drop_last()) + if v.last() == '"' {
            seq!['\\', '"']
        } else {
            seq![v.last()]
        }
    }
}

/// The comment line that stores a setting.
pub open spec fn comment_of(s: SettingView) -> Seq<char> {
    if s.quoted {
        "(fengrave_set "@ + pad_right(s.key, 11) + " \""@ + escape_quotes(s.value) + "\" )"@
    } else {
        "(fengrave_set "@ + pad_right(s.key, 11) + " "@ + s.value + " )"@
    }
}

/// The index of the first whitespace character.
pub open spec fn first_ws(s: Seq<char>) -> Option<int> {
    first_where(s, ws_pred())
}

/// The whitespace predicate as a function value.
pub open spec fn ws_pred() -> spec_fn(char) -> bool {
    |c: char| is_ws(c)
}

/// Equality with `c` as a function value.
pub open spec fn char_is(c: char) -> spec_fn(char) -> bool {
    |x: char| x == c
}

/// The index of the first occurrence of `c`.
pub open spec fn first_char(s: Seq<char>, c: char) -> Option<int> {
    first_where(s, char_is(c))
}

/// Splits at the first whitespace: the key before it and the trimmed rest.
pub open spec fn split_key_value_view(s: Seq<char>) -> Option<(Seq<char>, Seq<char>)> {
    match first_ws(s) {
        Some(j) => Some((s.take(j), trim(s.skip(j)))),
        None => None,
    }
}

/// `s` without one trailing `)`.
pub open spec fn strip_paren(s: Seq<char>) -> Seq<char> {
    if s.len() > 0 && s.last() == ')' {
        s.drop_last()
    } else {
        s
    }
}

/// The setting stored on one line, if the line holds one.
pub open spec fn parse_line_view(line: Seq<char>) -> Option<SettingView> {
    match find(line, "fengrave_set"@) {
        None => None,
        Some(i) => match split_key_value_view(trim(line.skip(i + "fengrave_set"@.len()))) {
            None => None,
            Some(kv) => {
                let v = trim(strip_paren(kv.1));
                if v.len() > 0 && v[0] == '"' {
                    let inner = v.drop_first();
                    let end = match first_char(inner, '"') {
                        Some(e) => e,
                        None => inner.len() as int,
                    };
                    Some(SettingView { key: kv.0, value: inner.take(end), quoted: true })
                } else {
                    Some(SettingView { key: kv.0, value: v, quoted: false })
                }
            },
        },
    }
}

/// The settings found on a sequence of lines, in order.
pub open spec fn parse_lines_view(ls: Seq<Seq<char>>) -> Seq<SettingView>
    decreases ls.len(),
{
    if ls.len() == 0 {
        seq![]
    } else {
        let prev = parse_lines_view(ls.drop_last());
        match parse_line_view(ls.last()) {
            Some(s) => prev.push(s),
            None => prev,
        }
    }
}

/// The settings found in a text.
pub open spec fn parse_view(input: Seq<char>) -> Seq<SettingView> {
    parse_lines_view(lines(input))
}

/// What `legacy_bool_value` accepts as true.
pub open spec fn legacy_true(value: Seq<char>) -> bool {
    let v = trim(value);
    ||| v == "1"@
    ||| v == "1.0"@
    ||| eq_ignore_case(v, "true"@)
    ||| eq_ignore_case(v, "yes"@)
    ||| eq_ignore_case(v, "on"@)
    ||| eq_ignore_case(v, "box"@)
}

/// The boolean a setting holds, or `default` when the key is absent.
pub open spec fn legacy_bool(es: Seq<SettingView>, key: Seq<char>, default: bool) -> bool {
    match last_value(es, key) {
        Some(v) => legacy_true(v),
        None => default,
    }
}

impl LegacySetting {
    /// Builds a setting.
    pub fn new(key: &str, value: &str, quoted: bool) -> (r: Self)
        ensures
            r@ == (SettingView { key: key@, value: value@, quoted }),
    {
        LegacySetting { key: key.to_owned(), value: value.to_owned(), quoted }
    }

    /// A copy of this setting.
    pub fn duplicate(&self) -> (r: Self)
        ensures
            r@ == self@,
    {
        LegacySetting { key: self.key.clone(), value: self.value.clone(), quoted: self.quoted }
    }

    /// The `(fengrave_set ...)` comment line for this setting.
    pub fn to_comment(&self) -> (r: String)
        ensures
            r@ == comment_of(self@),
    {
        let key = chars_of(self.key.as_str());
        let value = chars_of(self.value.as_str());
        let mut out: Vec<char> = Vec::new();
        push_str(&mut out, "(fengrave_set ");
        push_padded_right(&mut out, &key, 11);
        if self.quoted {
            push_str(&mut out, " \"");
            push_escaped(&mut out, &value);
            push_str(&mut out, "\" )");
        } else {
            push_str(&mut out, " ");
            push_all(&mut out, &value);
            push_str(&mut out, " )");
        }
        string_from_chars(&out)
    }
}

fn push_escaped(out: &mut Vec<char>, value: &[char])
    ensures
        final(out)@ == old(out)@ + escape_quotes(value@),
{
    let ghost start = out@;
    let mut i: usize = 0;
    while i < value.len()
        invariant
            i <= value.len(),
            out@ == start + escape_quotes(value@.take(i as int)),
        decreases value.len() - i,
    {
        let ghost t = value@.take(i + 1);
        assert(t.drop_last() =~= value@.take(i as int));
        if value[i] == '"' {
            out.push('\\');
            out.push('"');
        } else {
            out.push(value[i]);
        }
        i = i + 1;
        assert(out@ =~= start + escape_quotes(value@.take(i as int)));
    }
    assert(value@.take(value.len() as int) =~= value@);
}


/// Text of the comment lines, each ending with a newline.
pub open spec fn comments_text(es: Seq<SettingView>) -> Seq<char>
    decreases es.len(),
{
    if es.len() == 0 {
        seq![]
    } else {
        comments_text(es.drop_last()) + comment_of(es.last()) + seq!['\n']
    }
}

fn key_matches(e: &LegacySetting, key: &[char]) -> (r: bool)
    ensures
        r == (e@.key == key@),
{
    let k = chars_of(e.key.as_str());
    chars_eq(&k, key)
}

impl LegacySettings {
    /// The value of the last entry with `key`.
    pub fn get_last(&self, key: &str) -> (r: Option<&str>)
        ensures
            opt_str_view(r) == last_value(self@, key@),
    {
        let k = chars_of(key);
        let mut i = self.entries.len();
        assert(self@.take(i as int) =~= self@);
        while i > 0
            invariant
                i <= self.entries.len(),
                k@ == key@,
                last_value(self@, key@) == last_value(self@.take(i as int), key@),
            decreases i,
        {
            let ghost t = self@.take(i as int);
            assert(t.drop_last() =~= self@.take(i - 1));
            assert(t.last() == self.entries@[i - 1]@);
            if key_matches(&self.entries[i - 1], &k) {
                return Some(self.entries[i - 1].value.as_str());
            }
            i = i - 1;
        }
        None
    }

    /// Replaces the value of the first entry with `key`, or appends a new entry.
    pub fn set_or_push(&mut self, key: &str, value: &str, quoted: bool)
        ensures
            final(self)@ == set_or_push_view(old(self)@, key@, value@, quoted),
    {
        let k = chars_of(key);
        let ghost p = key_is(key@);
        let mut i: usize = 0;
        while i < self.entries.len()
            invariant
                i <= self.entries.len(),
                k@ == key@,
                *self == *old(self),
                p == key_is(key@),
                forall|j: int| 0 <= j < i ==> !p(#[trigger] self@[j]),
            decreases self.entries.len() - i,
        {
            assert(self@[i as int] == self.entries@[i as int]@);
            if key_matches(&self.entries[i], &k) {
                proof {
                    lemma_first_where_at(self@, p, i as int);
                }
                let ghost before = self@;
                self.entries.set(i, LegacySetting::new(key, value, quoted));
                assert(self@ =~= before.update(
                    i as int,
                    SettingView { key: key@, value: value@, quoted },
                ));
                return ;
            }
            i = i + 1;
        }
        proof {
            lemma_first_where_none(self@, p);
        }
        let ghost before = self@;
        self.entries.push(LegacySetting::new(key, value, quoted));
        assert(self@ =~= before.push(SettingView { key: key@, value: value@, quoted }));
    }

    /// Reads every `fengrave_set` line of a text.
    pub fn parse(input: &str) -> (r: Self)
        ensures
            r@ == parse_view(input@),
    {
        let chars = chars_of(input);
        let ls = lines_of(&chars);
        let mut entries: Vec<LegacySetting> = Vec::new();
        let mut i: usize = 0;
        while i < ls.len()
            invariant
                i <= ls.len(),
                seqs_view(ls@) == crate::text::lines(input@),
                settings_view(entries@) == parse_lines_view(seqs_view(ls@).take(i as int)),
            decreases ls.len() - i,
        {
            let ghost t = seqs_view(ls@).take(i + 1);
            assert(t.drop_last() =~= seqs_view(ls@).take(i as int));
            assert(t.last() == ls@[i as int]@);
            let ghost before = settings_view(entries@);
            match parse_legacy_line_chars(&ls[i]) {
                Some(e) => {
                    entries.push(e);
                    assert(settings_view(entries@) =~= before.push(entries@.last()@));
                },
                None => {},
            }
            i = i + 1;
        }
        assert(seqs_view(ls@).take(ls.len() as int) =~= seqs_view(ls@));
        LegacySettings { entries }
    }

    /// The comment line of every entry, in order.
    pub fn to_comments(&self) -> (r: Vec<String>)
        ensures
            r.len() == self.entries.len(),
            forall|i: int| 0 <= i < r.len() ==> #[trigger] r[i]@ == comment_of(self@[i]),
    {
        let mut out: Vec<String> = Vec::new();
        let mut i: usize = 0;
        while i < self.entries.len()
            invariant
                i <= self.entries.len(),
                out.len() == i,
                forall|j: int| 0 <= j < i ==> #[trigger] out[j]@ == comment_of(self@[j]),
            decreases self.entries.len() - i,
        {
            out.push(self.entries[i].to_comment());
            i = i + 1;
        }
        out
    }

    /// The comment lines joined, each followed by a newline.
    pub fn to_text(&self) -> (r: String)
        ensures
            r@ == comments_text(self@),
    {
        let mut out: Vec<char> = Vec::new();
        let mut i: usize = 0;
        while i < self.entries.len()
            invariant
                i <= self.entries.len(),
                out@ == comments_text(self@.take(i as int)),
            decreases self.entries.len() - i,
        {
            let ghost t = self@.take(i + 1);
            assert(t.drop_last() =~= self@.take(i as int));
            let c = self.entries[i].to_comment();
            let cc = chars_of(c.as_str());
            push_all(&mut out, &cc);
            out.push('\n');
            i = i + 1;
        }
        assert(self@.take(self.entries.len() as int) =~= self@);
        string_from_chars(&out)
    }
}

/// Splits at the first whitespace into the key and the trimmed rest.
pub fn split_key_value_chars(input: &[char]) -> (r: Option<(Vec<char>, Vec<char>)>)
    ensures
        match r {
            Some(kv) => split_key_value_view(input@) == Some((kv.0@, kv.1@)),
            None => split_key_value_view(input@) is None,
        },
{
    let ghost p = ws_pred();
    let mut i: usize = 0;
    while i < input.len()
        invariant
            i <= input.len(),
            p == ws_pred(),
            forall|j: int| 0 <= j < i ==> !p(#[trigger] input@[j]),
        decreases input.len() - i,
    {
        if crate::text::char_is_ws(input[i]) {
            proof {
                lemma_first_where_at(input@, p, i as int);
            }
            let key = sub_chars(input, 0, i);
            let rest = sub_chars(input, i, input.len());
            assert(rest@ =~= input@.skip(i as int));
            assert(key@ =~= input@.take(i as int));
            let value = trim_chars(&rest);
            return Some((key, value));
        }
        i = i + 1;
    }
    proof {
        lemma_first_where_none(input@, p);
    }
    None
}

/// The first index of `c` in `s`, or `s.len()`.
fn first_char_or_len(s: &[char], c: char) -> (r: usize)
    ensures
        r == match first_char(s@, c) {
            Some(e) => e,
            None => s.len() as int,
        },
{
    let ghost p = char_is(c);
    let mut i: usize = 0;
    while i < s.len()
        invariant
            i <= s.len(),
            p == char_is(c),
            forall|j: int| 0 <= j < i ==> !p(#[trigger] s@[j]),
        decreases s.len() - i,
    {
        if s[i] == c {
            proof {
                lemma_first_where_at(s@, p, i as int);
            }
            return i;
        }
        i = i + 1;
    }
    proof {
        lemma_first_where_none(s@, p);
    }
    s.len()
}

/// Reads the setting on one line, if the line holds one.
pub fn parse_legacy_line_chars(line: &[char]) -> (r: Option<LegacySetting>)
    ensures
        match r {
            Some(e) => parse_line_view(line@) == Some(e@),
            None => parse_line_view(line@) is None,
        },
{
    let ident = chars_of("fengrave_set");
    let at = match crate::text::find_chars(line, &ident) {
        Some(at) => at,
        None => return None,
    };
    proof {
        crate::text::lemma_find_bounds(line@, ident@);
        assert(crate::text::matches_at(line@, ident@, at as int));
    }
    assert(at + ident@.len() <= line@.len());
    assert(ident.len() == ident@.len());
    let ilen = ident.len();
    assert(at + ilen <= line.len());
    let start = at + ilen;
    let after = sub_chars(line, start, line.len());
    assert(after@ =~= line@.skip(at + ident@.len()));
    let rest = trim_chars(&after);
    let (key, value0) = match split_key_value_chars(&rest) {
        Some(kv) => kv,
        None => return None,
    };
    let mut v1 = value0;
    if v1.len() > 0 && v1[v1.len() - 1] == ')' {
        v1.pop();
    }
    assert(v1@ =~= strip_paren(value0@));
    let v = trim_chars(&v1);
    let key_s = string_from_chars(&key);
    if v.len() > 0 && v[0] == '"' {
        let inner = sub_chars(&v, 1, v.len());
        assert(inner@ =~= v@.drop_first());
        let end = first_char_or_len(&inner, '"');
        proof {
            crate::text::lemma_first_where_bounds(inner@, char_is('"'));
        }
        let value = sub_chars(&inner, 0, end);
        assert(value@ =~= inner@.take(end as int));
        Some(LegacySetting { key: key_s, value: string_from_chars(&value), quoted: true })
    } else {
        Some(LegacySetting { key: key_s, value: string_from_chars(&v), quoted: false })
    }
}

/// Reads the setting on one line, if the line holds one.
pub fn parse_legacy_line(line: &str) -> (r: Option<LegacySetting>)
    ensures
        match r {
            Some(e) => parse_line_view(line@) == Some(e@),
            None => parse_line_view(line@) is None,
        },
{
    let cs = chars_of(line);
    parse_legacy_line_chars(&cs)
}

/// Splits at the first whitespace into the key and the trimmed rest.
pub fn split_key_value(input: &str) -> (r: Option<(String, String)>)
    ensures
        match r {
            Some(kv) => split_key_value_view(input@) == Some((kv.0@, kv.1@)),
            None => split_key_value_view(input@) is None,
        },
{
    let cs = chars_of(input);
    match split_key_value_chars(&cs) {
        Some(kv) => Some((string_from_chars(&kv.0), string_from_chars(&kv.1))),
        None => None,
    }
}

/// Whether a legacy setting value reads as true: `1`, `1.0`, or, ignoring
/// ASCII case, `true`, `yes`, `on` or `box`, around optional whitespace.
pub fn legacy_bool_value(value: &str) -> (r: bool)
    ensures
        r == legacy_true(value@),
{
    let raw = chars_of(value);
    let v = trim_chars(&raw);
    let one = chars_of("1");
    let one_f = chars_of("1.0");
    let t = chars_of("true");
    let y = chars_of("yes");
    let on = chars_of("on");
    let b = chars_of("box");
    chars_eq(&v, &one) || chars_eq(&v, &one_f) || chars_eq_ignore_case(&v, &t)
        || chars_eq_ignore_case(&v, &y) || chars_eq_ignore_case(&v, &on) || chars_eq_ignore_case(
        &v,
        &b,
    )
}

/// The boolean value of the last entry with `key`, or `default`.
pub fn get_legacy_bool(settings: &LegacySettings, key: &str, default: bool) -> (r: bool)
    ensures
        r == legacy_bool(settings@, key@, default),
{
    match settings.get_last(key) {
        Some(v) => legacy_bool_value(v),
        None => default,
    }
}


/// Why the TCODE text could not be decoded.
#[derive(Debug)]
pub enum LegacySettingsError {
    InvalidTextCode { token: String },
    InvalidUnicodeScalar { code: u32 },
}

/// The content of a TCODE decoding failure.
pub enum TcodeFailure {
    BadToken(Seq<char>),
    BadScalar(u32),
}

/// The content of an error value.
pub open spec fn failure_of(e: LegacySettingsError) -> TcodeFailure {
    match e {
        LegacySettingsError::InvalidTextCode { token } => TcodeFailure::BadToken(token@),
        LegacySettingsError::InvalidUnicodeScalar { code } => TcodeFailure::BadScalar(code),
    }
}

/// The character one TCODE token stands for: its decimal Unicode scalar.
pub open spec fn decode_token(t: Seq<char>) -> Result<char, TcodeFailure> {
    match parse_u32(t) {
        None => Err(TcodeFailure::BadToken(t)),
        Some(code) => if is_scalar(code) {
            Ok(code as char)
        } else {
            Err(TcodeFailure::BadScalar(code))
        },
    }
}

/// The text the tokens stand for, or the failure of the first bad token.
pub open spec fn decode_tokens(ts: Seq<Seq<char>>) -> Result<Seq<char>, TcodeFailure>
    decreases ts.len(),
{
    if ts.len() == 0 {
        Ok(seq![])
    } else {
        match decode_tokens(ts.drop_last()) {
            Err(e) => Err(e),
            Ok(p) => match decode_token(ts.last()) {
                Ok(c) => Ok(p.push(c)),
                Err(e) => Err(e),
            },
        }
    }
}

/// The whitespace-separated tokens of every TCODE entry, in order.
pub open spec fn tcode_tokens(es: Seq<SettingView>) -> Seq<Seq<char>>
    decreases es.len(),
{
    if es.len() == 0 {
        seq![]
    } else {
        tcode_tokens(es.drop_last()) + if es.last().key == "TCODE"@ {
            split_ws(es.last().value)
        } else {
            seq![]
        }
    }
}

/// The engraved text recorded in TCODE entries: none when there is no
/// TCODE entry, else the decoded tokens of all of them.
pub open spec fn text_from_tcode_view(es: Seq<SettingView>) -> Result<
    Option<Seq<char>>,
    TcodeFailure,
> {
    if first_index(es, "TCODE"@) is None {
        Ok(None)
    } else {
        match decode_tokens(tcode_tokens(es)) {
            Ok(t) => Ok(Some(t)),
            Err(e) => Err(e),
        }
    }
}

/// The optional string, by its characters.
pub open spec fn opt_string_view(o: Option<String>) -> Option<Seq<char>> {
    match o {
        Some(s) => Some(s@),
        None => None,
    }
}

proof fn lemma_decode_err_prefix(p: Seq<Seq<char>>, q: Seq<Seq<char>>)
    requires
        decode_tokens(p) is Err,
    ensures
        decode_tokens(p + q) == decode_tokens(p),
    decreases q.len(),
{
    if q.len() == 0 {
        assert(p + q =~= p);
    } else {
        lemma_decode_err_prefix(p, q.drop_last());
        assert((p + q).drop_last() =~= p + q.drop_last());
    }
}

proof fn lemma_tcode_tokens_concat(a: Seq<SettingView>, b: Seq<SettingView>)
    ensures
        tcode_tokens(a + b) == tcode_tokens(a) + tcode_tokens(b),
    decreases b.len(),
{
    if b.len() == 0 {
        assert(a + b =~= a);
        assert(tcode_tokens(a) + tcode_tokens(b) =~= tcode_tokens(a));
    } else {
        lemma_tcode_tokens_concat(a, b.drop_last());
        assert((a + b).drop_last() =~= a + b.drop_last());
        assert((a + b).last() == b.last());
        let extra = if b.last().key == "TCODE"@ {
            split_ws(b.last().value)
        } else {
            seq![]
        };
        assert(tcode_tokens(a) + tcode_tokens(b.drop_last()) + extra =~= tcode_tokens(a) + (
        tcode_tokens(b.drop_last()) + extra));
    }
}

impl LegacySettingsError {
    /// The error message.
    pub fn message(&self) -> (r: String)
        ensures
            r@ == match failure_of(*self) {
                TcodeFailure::BadToken(t) => "invalid TCODE token `"@ + t + "`"@,
                TcodeFailure::BadScalar(code) => "invalid Unicode scalar in TCODE: "@ + decimal(
                    code as nat,
                ),
            },
    {
        let mut out: Vec<char> = Vec::new();
        match self {
            LegacySettingsError::InvalidTextCode { token } => {
                push_str(&mut out, "invalid TCODE token `");
                push_str(&mut out, token.as_str());
                push_str(&mut out, "`");
            },
            LegacySettingsError::InvalidUnicodeScalar { code } => {
                push_str(&mut out, "invalid Unicode scalar in TCODE: ");
                push_decimal(&mut out, *code as u64);
            },
        }
        string_from_chars(&out)
    }
}

impl LegacySettings {
    /// The text recorded in the TCODE entries, if there are any.
    pub fn text_from_tcode(&self) -> (r: Result<Option<String>, LegacySettingsError>)
        ensures
            match r {
                Ok(o) => text_from_tcode_view(self@) == Ok::<Option<Seq<char>>, TcodeFailure>(
                    opt_string_view(o),
                ),
                Err(e) => text_from_tcode_view(self@) == Err::<Option<Seq<char>>, TcodeFailure>(
                    failure_of(e),
                ),
            },
    {
        let tkey = chars_of("TCODE");
        let mut text: Vec<char> = Vec::new();
        let mut found = false;
        let mut i: usize = 0;
        let ghost p = key_is("TCODE"@);
        while i < self.entries.len()
            invariant
                i <= self.entries.len(),
                tkey@ == "TCODE"@,
                p == key_is("TCODE"@),
                decode_tokens(tcode_tokens(self@.take(i as int))) == Ok::<
                    Seq<char>,
                    TcodeFailure,
                >(text@),
                found == (first_where(self@.take(i as int), p) is Some),
            decreases self.entries.len() - i,
        {
            let ghost pre = self@.take(i as int);
            let ghost t1 = self@.take(i + 1);
            assert(t1.drop_last() =~= pre);
            assert(t1.last() == self.entries@[i as int]@);
            if key_matches(&self.entries[i], &tkey) {
                found = true;
                let vchars = chars_of(self.entries[i].value.as_str());
                let toks = split_ws_of(&vchars);
                let ghost base = tcode_tokens(pre);
                assert(tcode_tokens(t1) == base + seqs_view(toks@));
                let mut j: usize = 0;
                assert(base + seqs_view(toks@).take(0) =~= base);
                while j < toks.len()
                    invariant
                        j <= toks.len(),
                        decode_tokens(base + seqs_view(toks@).take(j as int)) == Ok::<
                            Seq<char>,
                            TcodeFailure,
                        >(text@),
                        i < self.entries.len(),
                        self@[i as int].key == "TCODE"@,
                        t1 == self@.take(i + 1),
                        tcode_tokens(t1) == base + seqs_view(toks@),
                    decreases toks.len() - j,
                {
                    let ghost cur = base + seqs_view(toks@).take(j + 1);
                    assert(cur.drop_last() =~= base + seqs_view(toks@).take(j as int));
                    assert(cur.last() == toks@[j as int]@);
                    let ghost rest = seqs_view(toks@).skip(j + 1);
                    assert(cur + rest =~= tcode_tokens(t1));
                    match parse_u32_chars(&toks[j]) {
                        None => {
                            let e = LegacySettingsError::InvalidTextCode {
                                token: string_from_chars(&toks[j]),
                            };
                            proof {
                                lemma_tcode_err_extends(self@, i as int, cur, rest);
                            }
                            return Err(e);
                        },
                        Some(code) => match char_from_u32(code) {
                            None => {
                                proof {
                                    lemma_tcode_err_extends(self@, i as int, cur, rest);
                                }
                                return Err(LegacySettingsError::InvalidUnicodeScalar { code });
                            },
                            Some(c) => {
                                proof {
                                    crate::text::lemma_char_code_roundtrip(c);
                                }
                                assert(c == code as char);
                                assert(decode_token(cur.last()) == Ok::<char, TcodeFailure>(c));
                                text.push(c);
                            },
                        },
                    }
                    j = j + 1;
                }
                assert(seqs_view(toks@).take(toks.len() as int) =~= seqs_view(toks@));
            } else {
                assert(tcode_tokens(t1) =~= tcode_tokens(pre));
            }
            i = i + 1;
        }
        assert(self@.take(self.entries.len() as int) =~= self@);
        if found {
            Ok(Some(string_from_chars(&text)))
        } else {
            Ok(None)
        }
    }

}

proof fn lemma_tcode_err_extends(es: Seq<SettingView>, i: int, cur: Seq<Seq<char>>, rest: Seq<Seq<char>>)
    requires
        0 <= i < es.len(),
        es[i].key == "TCODE"@,
        decode_tokens(cur) is Err,
        cur + rest == tcode_tokens(es.take(i + 1)),
    ensures
        decode_tokens(cur) matches Err(f) ==> text_from_tcode_view(es) == Err::<
            Option<Seq<char>>,
            TcodeFailure,
        >(f),
{
    lemma_tcode_tokens_concat(es.take(i + 1), es.skip(i + 1));
    assert(es.take(i + 1) + es.skip(i + 1) =~= es);
    lemma_decode_err_prefix(cur, rest + tcode_tokens(es.skip(i + 1)));
    assert(cur + (rest + tcode_tokens(es.skip(i + 1))) =~= tcode_tokens(es));
    crate::text::lemma_first_where_some(es, key_is("TCODE"@), i);
}


/// The TCODE tokens of entry `k` of `t`: the codes of the characters from
/// `11 k`, at most eleven of them.
pub open spec fn tcode_chunk_tokens(t: Seq<char>, k: int) -> Seq<Seq<char>> {
    t.subrange(
        11 * k,
        if 11 * k + 11 <= t.len() {
            11 * k + 11
        } else {
            t.len() as int
        },
    ).map_values(|c: char| tcode_token(c))
}

/// Entry `k` of the TCODE encoding of `t`.
pub open spec fn tcode_entry(t: Seq<char>, k: int) -> SettingView {
    SettingView { key: "TCODE"@, value: join_ws(tcode_chunk_tokens(t, k)), quoted: false }
}

/// The TCODE encoding of `t`: one entry per eleven characters, the last
/// one holding the rest, and one empty entry for empty text.
pub open spec fn tcode_views(t: Seq<char>) -> Seq<SettingView> {
    if t.len() == 0 {
        seq![tcode_entry(t, 0)]
    } else {
        Seq::new(((t.len() + 10) / 11) as nat, |k: int| tcode_entry(t, k))
    }
}

/// Appends the TCODE token of `c`.
fn push_tcode_token(out: &mut Vec<char>, c: char)
    ensures
        final(out)@ == old(out)@ + tcode_token(c),
{
    let mut digits: Vec<char> = Vec::new();
    push_decimal(&mut digits, c as u32 as u64);
    assert(digits@ =~= decimal(c as u32 as nat));
    push_padded_left(out, &digits, 3, '0');
}

/// The TCODE token of a character: its Unicode scalar in decimal, padded
/// with zeros to at least three digits.
pub open spec fn tcode_token(c: char) -> Seq<char> {
    pad_left(decimal(c as u32 as nat), 3, '0')
}

/// Tokens joined by single spaces.
pub open spec fn join_ws(ts: Seq<Seq<char>>) -> Seq<char>
    decreases ts.len(),
{
    if ts.len() == 0 {
        seq![]
    } else if ts.len() == 1 {
        ts[0]
    } else {
        join_ws(ts.drop_last()) + seq![' '] + ts.last()
    }
}

/// Encodes text as TCODE entries of at most eleven space-separated codes.
pub fn tcode_settings(text: &str) -> (r: Vec<LegacySetting>)
    ensures
        settings_view(r@) == tcode_views(text@),
{
    let t = chars_of(text);
    let mut out: Vec<LegacySetting> = Vec::new();
    let mut chunk: Vec<char> = Vec::new();
    let mut count: usize = 0;
    let mut nfull: usize = 0;
    let mut i: usize = 0;
    while i < t.len()
        invariant
            t@ == text@,
            i <= t.len(),
            i == 11 * nfull + count,
            count <= 10,
            chunk@ == join_ws(t@.subrange(11 * nfull, i as int).map_values(|c: char| tcode_token(c))),
            out.len() == nfull,
            forall|k: int| 0 <= k < nfull ==> #[trigger] out@[k]@ == tcode_entry(t@, k),
        decreases t.len() - i,
    {
        let ghost prev = t@.subrange(11 * nfull, i as int).map_values(|c: char| tcode_token(c));
        let ghost next = t@.subrange(11 * nfull, i + 1).map_values(|c: char| tcode_token(c));
        assert(next.drop_last() =~= prev);
        assert(next.last() == tcode_token(t@[i as int]));
        assert(prev.len() == count);
        if count > 0 {
            chunk.push(' ');
        }
        push_tcode_token(&mut chunk, t[i]);
        assert(chunk@ =~= join_ws(next));
        count = count + 1;
        i = i + 1;
        if count > 10 {
            let ghost k = nfull as int;
            assert(11 * k + 11 <= t@.len());
            assert(next =~= tcode_chunk_tokens(t@, k));
            out.push(LegacySetting { key: "TCODE".to_owned(), value: string_from_chars(&chunk), quoted: false });
            chunk = Vec::new();
            count = 0;
            nfull = nfull + 1;
            assert(t@.subrange(11 * nfull, i as int).map_values(|c: char| tcode_token(c)) =~= seq![]);
            assert(chunk@ =~= seq![]);
        }
    }
    if count > 0 || t.len() == 0 {
        let ghost k = nfull as int;
        assert(t@.subrange(11 * nfull, i as int).map_values(|c: char| tcode_token(c)) =~= tcode_chunk_tokens(t@, k));
        out.push(LegacySetting { key: "TCODE".to_owned(), value: string_from_chars(&chunk), quoted: false });
    }
    proof {
        if t@.len() == 0 {
            assert(chunk@ =~= seq![]);
            assert(settings_view(out@) =~= tcode_views(text@));
        } else {
            let n = t@.len();
            if count > 0 {
                assert((n + 10) / 11 == nfull + 1) by (nonlinear_arith)
                    requires n == 11 * nfull + count, 1 <= count <= 10;
            } else {
                assert((n + 10) / 11 == nfull as int) by (nonlinear_arith)
                    requires n == 11 * nfull, n > 0;
            }
            assert(settings_view(out@) =~= tcode_views(text@));
        }
    }
    out
}


proof fn lemma_token_decodes(c: char)
    ensures
        decode_token(tcode_token(c)) == Ok::<char, TcodeFailure>(c),
        tcode_token(c).len() >= 1,
        forall|i: int| 0 <= i < tcode_token(c).len() ==> !is_ws(#[trigger] tcode_token(c)[i]),
{
    let n = c as u32 as nat;
    lemma_decimal(n);
    let d = decimal(n);
    let tok = tcode_token(c);
    if d.len() < 3 {
        lemma_zeros_value((3 - d.len()) as nat, d);
    }
    assert(all_digits(tok));
    assert(digits_value(tok) == n);
    assert(is_digit(tok[0]));
    assert(drop_plus(tok) == tok);
    assert forall|i: int| 0 <= i < tok.len() implies !is_ws(#[trigger] tok[i]) by {
        assert(is_digit(tok[i]));
    }
    crate::text::lemma_char_code_roundtrip(c);
}

proof fn lemma_decode_map(t: Seq<char>)
    ensures
        decode_tokens(t.map_values(|c: char| tcode_token(c))) == Ok::<Seq<char>, TcodeFailure>(t),
    decreases t.len(),
{
    let m = t.map_values(|c: char| tcode_token(c));
    if t.len() > 0 {
        lemma_decode_map(t.drop_last());
        assert(m.drop_last() =~= t.drop_last().map_values(|c: char| tcode_token(c)));
        lemma_token_decodes(t.last());
        assert(m.last() == tcode_token(t.last()));
        assert(t.drop_last().push(t.last()) =~= t);
    } else {
        assert(m =~= seq![]);
        assert(t =~= seq![]);
    }
}

/// Every token is nonempty and free of whitespace.
pub open spec fn plain_tokens(ts: Seq<Seq<char>>) -> bool {
    forall|k: int|
        0 <= k < ts.len() ==> (#[trigger] ts[k]).len() >= 1 && forall|i: int|
            0 <= i < ts[k].len() ==> !is_ws(#[trigger] ts[k][i])
}

/// What the scan yields after a separator-led remainder.
pub open spec fn after_sep(r: Seq<char>) -> Seq<Seq<char>> {
    if r.len() == 0 {
        seq![]
    } else {
        ws_scan(r.drop_first(), seq![])
    }
}

proof fn lemma_scan_one(a: Seq<char>, r: Seq<char>)
    requires
        a.len() >= 1,
        forall|i: int| 0 <= i < a.len() ==> !is_ws(#[trigger] a[i]),
        r.len() == 0 || is_ws(r[0]),
    ensures
        ws_scan(a + r, seq![]) == seq![a] + after_sep(r),
{
    lemma_ws_scan_word(a, r, seq![]);
    assert(seq![] + a =~= a);
    if r.len() == 0 {
        assert(seq![a] + after_sep(r) =~= seq![a]);
    }
}

proof fn lemma_scan_join(ts: Seq<Seq<char>>, r: Seq<char>)
    requires
        ts.len() >= 1,
        plain_tokens(ts),
        r.len() == 0 || is_ws(r[0]),
    ensures
        ws_scan(join_ws(ts) + r, seq![]) == ts + after_sep(r),
    decreases ts.len(),
{
    assert(ts[0].len() >= 1);
    if ts.len() == 1 {
        lemma_scan_one(ts[0], r);
        assert(seq![ts[0]] =~= ts);
    } else {
        let init = ts.drop_last();
        let last = ts.last();
        assert(last == ts[ts.len() - 1]);
        assert(plain_tokens(init)) by {
            assert forall|k: int| 0 <= k < init.len() implies (#[trigger] init[k]).len() >= 1
                && forall|i: int| 0 <= i < init[k].len() ==> !is_ws(#[trigger] init[k][i]) by {
                assert(init[k] == ts[k]);
            }
        }
        let r2 = seq![' '] + last + r;
        assert(r2[0] == ' ');
        lemma_scan_join(init, r2);
        assert(join_ws(ts) + r =~= join_ws(init) + r2);
        assert(r2.drop_first() =~= last + r);
        lemma_scan_one(last, r);
        assert(init + (seq![last] + after_sep(r)) =~= ts + after_sep(r));
    }
}

/// Joining tokens with spaces and splitting at whitespace gives them back.
proof fn lemma_split_join(ts: Seq<Seq<char>>)
    requires
        plain_tokens(ts),
    ensures
        split_ws(join_ws(ts)) == ts,
{
    if ts.len() == 0 {
        assert(split_ws(join_ws(ts)) =~= ts);
    } else {
        lemma_scan_join(ts, seq![]);
        assert(join_ws(ts) + seq![] =~= join_ws(ts));
        assert(ts + after_sep(seq![]) =~= ts);
    }
}

proof fn lemma_chunk_plain(t: Seq<char>, k: int)
    requires
        0 <= 11 * k <= t.len(),
    ensures
        plain_tokens(tcode_chunk_tokens(t, k)),
{
    let ts = tcode_chunk_tokens(t, k);
    assert forall|j: int| 0 <= j < ts.len() implies (#[trigger] ts[j]).len() >= 1 && forall|i: int|
        0 <= i < ts[j].len() ==> !is_ws(#[trigger] ts[j][i]) by {
        lemma_token_decodes(t[11 * k + j]);
    }
}

proof fn lemma_tcode_tokens_of_views(t: Seq<char>)
    ensures
        tcode_tokens(tcode_views(t)) == t.map_values(|c: char| tcode_token(c)),
{
    let vs = tcode_views(t);
    reveal_strlit("TCODE");
    if t.len() == 0 {
        assert(vs.drop_last() =~= seq![]);
        assert(vs.last().key == "TCODE"@);
        assert(vs.last().value =~= seq![]);
        assert(split_ws(seq![]) =~= seq![]);
        assert(tcode_tokens(vs.drop_last()) =~= seq![]);
        assert(tcode_tokens(vs) == tcode_tokens(vs.drop_last()) + split_ws(vs.last().value));
        assert(tcode_tokens(vs) =~= t.map_values(|c: char| tcode_token(c)));
    } else {
        let n = t.len() as int;
        let m = (n + 10) / 11;
        assert(11 * m >= n && 11 * (m - 1) < n) by (nonlinear_arith)
            requires m == (n + 10) / 11, n > 0;
        lemma_tcode_tokens_prefix(t, m);
        assert(vs.take(m) =~= vs);
        assert(t.take(n) =~= t);
    }
}

proof fn lemma_tcode_tokens_prefix(t: Seq<char>, k: int)
    requires
        t.len() > 0,
        0 <= k,
        11 * (k - 1) < t.len(),
    ensures
        k <= tcode_views(t).len(),
        tcode_tokens(tcode_views(t).take(k)) == t.take(if 11 * k <= t.len() {
            11 * k
        } else {
            t.len() as int
        }).map_values(|c: char| tcode_token(c)),
    decreases k,
{
    let vs = tcode_views(t);
    let n = t.len() as int;
    assert((n + 10) / 11 >= k) by (nonlinear_arith)
        requires 11 * (k - 1) < n, k >= 0;
    if k == 0 {
        assert(vs.take(0) =~= seq![]);
        assert(t.take(0).map_values(|c: char| tcode_token(c)) =~= seq![]);
    } else {
        lemma_tcode_tokens_prefix(t, k - 1);
        let vk = vs.take(k);
        assert(vk.drop_last() =~= vs.take(k - 1));
        assert(vk.last() == tcode_entry(t, k - 1));
        lemma_chunk_plain(t, k - 1);
        lemma_split_join(tcode_chunk_tokens(t, k - 1));
        let end = if 11 * k <= n {
            11 * k
        } else {
            n
        };
        assert(t.take(11 * (k - 1)).map_values(|c: char| tcode_token(c)) + tcode_chunk_tokens(
            t,
            k - 1,
        ) =~= t.take(end).map_values(|c: char| tcode_token(c)));
    }
}

/// The TCODE encoding of any text decodes to that text: a settings list
/// that holds exactly the entries `tcode_settings` writes reads back the
/// same text through `text_from_tcode`.
pub proof fn law_tcode_round_trip(t: Seq<char>)
    ensures
        text_from_tcode_view(tcode_views(t)) == Ok::<Option<Seq<char>>, TcodeFailure>(Some(t)),
{
    let vs = tcode_views(t);
    reveal_strlit("TCODE");
    assert(vs[0].key == "TCODE"@);
    crate::text::lemma_first_where_some(vs, key_is("TCODE"@), 0);
    lemma_tcode_tokens_of_views(t);
    lemma_decode_map(t);
}

/// Settings with no TCODE entry of their own, followed by the TCODE
/// encoding of a text, read back that text.
pub proof fn law_tcode_tail_read_back(pre: Seq<SettingView>, t: Seq<char>)
    requires
        forall|i: int| 0 <= i < pre.len() ==> (#[trigger] pre[i]).key != "TCODE"@,
    ensures
        text_from_tcode_view(pre + tcode_views(t)) == Ok::<Option<Seq<char>>, TcodeFailure>(
            Some(t),
        ),
{
    let vs = tcode_views(t);
    let es = pre + vs;
    reveal_strlit("TCODE");
    lemma_tcode_tokens_concat(pre, vs);
    lemma_no_tcode_tokens(pre);
    lemma_tcode_tokens_of_views(t);
    assert(tcode_tokens(es) =~= t.map_values(|c: char| tcode_token(c)));
    assert(es[pre.len() as int] == vs[0]);
    crate::text::lemma_first_where_some(es, key_is("TCODE"@), pre.len() as int);
    lemma_decode_map(t);
}

proof fn lemma_no_tcode_tokens(es: Seq<SettingView>)
    requires
        forall|i: int| 0 <= i < es.len() ==> (#[trigger] es[i]).key != "TCODE"@,
    ensures
        tcode_tokens(es) == Seq::<Seq<char>>::empty(),
    decreases es.len(),
{
    if es.len() > 0 {
        let p = es.drop_last();
        assert forall|i: int| 0 <= i < p.len() implies (#[trigger] p[i]).key != "TCODE"@ by {
            assert(p[i] == es[i]);
        }
        lemma_no_tcode_tokens(p);
        assert(es[es.len() - 1].key != "TCODE"@);
        assert(tcode_tokens(es) =~= Seq::<Seq<char>>::empty());
    }
}

/// The characters of tokens that all decode.
pub open spec fn decoded_chars(ts: Seq<Seq<char>>) -> Seq<char> {
    Seq::new(ts.len(), |j: int| decode_token(ts[j])->Ok_0)
}

proof fn lemma_decode_all_ok(ts: Seq<Seq<char>>)
    requires
        forall|j: int| 0 <= j < ts.len() ==> #[trigger] decode_token(ts[j]) is Ok,
    ensures
        decode_tokens(ts) == Ok::<Seq<char>, TcodeFailure>(decoded_chars(ts)),
    decreases ts.len(),
{
    if ts.len() > 0 {
        let p = ts.drop_last();
        assert forall|j: int| 0 <= j < p.len() implies #[trigger] decode_token(p[j]) is Ok by {
            assert(p[j] == ts[j]);
        }
        lemma_decode_all_ok(p);
        assert(decode_token(ts[ts.len() - 1]) is Ok);
        assert(decoded_chars(p).push(decode_token(ts.last())->Ok_0) =~= decoded_chars(ts));
    } else {
        assert(decoded_chars(ts) =~= seq![]);
    }
}

proof fn lemma_decode_first_bad(ts: Seq<Seq<char>>, k: int)
    requires
        0 <= k < ts.len(),
        decode_token(ts[k]) is Err,
        forall|j: int| 0 <= j < k ==> #[trigger] decode_token(ts[j]) is Ok,
    ensures
        decode_tokens(ts) == Err::<Seq<char>, TcodeFailure>(decode_token(ts[k])->Err_0),
    decreases ts.len(),
{
    let p = ts.drop_last();
    if k == ts.len() - 1 {
        assert forall|j: int| 0 <= j < p.len() implies #[trigger] decode_token(p[j]) is Ok by {
            assert(p[j] == ts[j]);
        }
        lemma_decode_all_ok(p);
    } else {
        assert(p[k] == ts[k]);
        assert forall|j: int| 0 <= j < k implies #[trigger] decode_token(p[j]) is Ok by {
            assert(p[j] == ts[j]);
        }
        lemma_decode_first_bad(p, k);
    }
}

/// How `text_from_tcode` reads the text. It gives `Ok(None)` exactly when no
/// entry has the key `TCODE`. Otherwise the whitespace-separated tokens of
/// all TCODE entries are read in order: when every token is the decimal code
/// of a Unicode scalar, the text is those characters in order; else the
/// first bad token decides the error, `InvalidTextCode` for a token that is
/// no `u32` and `InvalidUnicodeScalar` for a code that is no scalar.
pub proof fn law_tcode_decoding(es: Seq<SettingView>)
    ensures
        (text_from_tcode_view(es) == Ok::<Option<Seq<char>>, TcodeFailure>(None)) <==> (forall|
            i: int,
        | 0 <= i < es.len() ==> (#[trigger] es[i]).key != "TCODE"@),
        (exists|i: int| 0 <= i < es.len() && (#[trigger] es[i]).key == "TCODE"@) ==> {
            let ts = tcode_tokens(es);
            &&& (forall|j: int| 0 <= j < ts.len() ==> #[trigger] decode_token(ts[j]) is Ok)
                ==> text_from_tcode_view(es) == Ok::<Option<Seq<char>>, TcodeFailure>(
                Some(decoded_chars(ts)),
            )
            &&& forall|k: int|
                #![trigger decode_token(ts[k])]
                0 <= k < ts.len() && decode_token(ts[k]) is Err && (forall|j: int|
                    0 <= j < k ==> #[trigger] decode_token(ts[j]) is Ok) ==> text_from_tcode_view(
                    es,
                ) == Err::<Option<Seq<char>>, TcodeFailure>(decode_token(ts[k])->Err_0)
        },
{
    let ts = tcode_tokens(es);
    if exists|i: int| 0 <= i < es.len() && (#[trigger] es[i]).key == "TCODE"@ {
        let i = choose|i: int| 0 <= i < es.len() && (#[trigger] es[i]).key == "TCODE"@;
        crate::text::lemma_first_where_some(es, key_is("TCODE"@), i);
        if forall|j: int| 0 <= j < ts.len() ==> #[trigger] decode_token(ts[j]) is Ok {
            lemma_decode_all_ok(ts);
        }
        assert forall|k: int|
            #![trigger decode_token(ts[k])]
            0 <= k < ts.len() && decode_token(ts[k]) is Err && (forall|j: int|
                0 <= j < k ==> #[trigger] decode_token(ts[j]) is Ok) implies text_from_tcode_view(
            es,
        ) == Err::<Option<Seq<char>>, TcodeFailure>(decode_token(ts[k])->Err_0) by {
            lemma_decode_first_bad(ts, k);
        }
    } else {
        crate::text::lemma_first_where_none(es, key_is("TCODE"@));
    }
}

/// The layout of the TCODE entries: one entry per eleven characters, the
/// last holding the rest, and a single empty entry for empty text. Every
/// entry has the key `TCODE` and an unquoted value whose whitespace-separated
/// tokens are the three-digit codes of its characters; every entry but the
/// last holds eleven of them, none more; and all entries' tokens, in order,
/// are the codes of the text's characters.
pub proof fn law_tcode_layout(t: Seq<char>)
    ensures
        ({
            let vs = tcode_views(t);
            &&& vs.len() == if t.len() == 0 {
                1
            } else {
                (t.len() + 10) / 11
            }
            &&& t.len() == 0 ==> vs == seq![SettingView { key: "TCODE"@, value: seq![], quoted: false }]
            &&& forall|k: int|
                0 <= k < vs.len() ==> (#[trigger] vs[k]).key == "TCODE"@ && !vs[k].quoted
                    && split_ws(vs[k].value) == tcode_chunk_tokens(t, k)
                    && tcode_chunk_tokens(t, k).len() <= 11
                    && (k < vs.len() - 1 ==> tcode_chunk_tokens(t, k).len() == 11)
            &&& tcode_tokens(vs) == t.map_values(|c: char| tcode_token(c))
        }),
{
    let vs = tcode_views(t);
    let n = t.len() as int;
    lemma_tcode_tokens_of_views(t);
    if n == 0 {
        assert(tcode_chunk_tokens(t, 0) =~= seq![]);
        assert(vs[0].value =~= seq![]);
        assert(split_ws(seq![]) =~= seq![]);
    } else {
        let m = (n + 10) / 11;
        assert(11 * (m - 1) < n) by (nonlinear_arith)
            requires m == (n + 10) / 11, n > 0;
    }
    assert forall|k: int| 0 <= k < vs.len() implies (#[trigger] vs[k]).key == "TCODE"@
        && !vs[k].quoted && split_ws(vs[k].value) == tcode_chunk_tokens(t, k)
        && tcode_chunk_tokens(t, k).len() <= 11 && (k < vs.len() - 1 ==> tcode_chunk_tokens(t, k).len()
        == 11) by {
        if n > 0 {
            let m = (n + 10) / 11;
            assert(11 * k <= 11 * (m - 1)) by (nonlinear_arith)
                requires k <= m - 1;
            if k < m - 1 {
                assert(11 * k + 11 <= 11 * (m - 1)) by (nonlinear_arith)
                    requires k < m - 1;
            }
        }
        lemma_chunk_plain(t, k);
        lemma_split_join(tcode_chunk_tokens(t, k));
    }
}


/// One entry of the built-in defaults.
pub open spec fn default_entry(key: Seq<char>, value: Seq<char>, quoted: bool) -> SettingView {
    SettingView { key, value, quoted }
}

/// The built-in F-Engrave settings, in the order they are written.
pub open spec fn default_views() -> Seq<SettingView> {
    seq![
        default_entry("show_axis"@, "1"@, false),
        default_entry("show_box"@, "1"@, false),
        default_entry("show_thick"@, "1"@, false),
        default_entry("flip"@, "0"@, false),
        default_entry("mirror"@, "0"@, false),
        default_entry("outer"@, "1"@, false),
        default_entry("upper"@, "1"@, false),
        default_entry("v_flop"@, "0"@, false),
        default_entry("v_pplot"@, "0"@, false),
        default_entry("inlay"@, "0"@, false),
        default_entry("bmp_long"@, "1"@, false),
        default_entry("var_dis"@, "1"@, false),
        default_entry("ext_char"@, "0"@, false),
        default_entry("useIMGsize"@, "0"@, false),
        default_entry("no_comments"@, "0"@, false),
        default_entry("plotbox"@, "0"@, false),
        default_entry("show_v_path"@, "1"@, false),
        default_entry("show_v_area"@, "1"@, false),
        default_entry("arc_fit"@, "none"@, false),
        default_entry("YSCALE"@, "2.0"@, false),
        default_entry("XSCALE"@, "100"@, false),
        default_entry("LSPACE"@, "1.1"@, false),
        default_entry("CSPACE"@, "25"@, false),
        default_entry("WSPACE"@, "100"@, false),
        default_entry("TANGLE"@, "0.0"@, false),
        default_entry("TRADIUS"@, "0.0"@, false),
        default_entry("ZSAFE"@, "0.25"@, false),
        default_entry("ZCUT"@, "-0.005"@, false),
        default_entry("STHICK"@, "0.01"@, false),
        default_entry("origin"@, "Default"@, false),
        default_entry("justify"@, "Left"@, false),
        default_entry("units"@, "in"@, false),
        default_entry("xorigin"@, "0.0"@, false),
        default_entry("yorigin"@, "0.0"@, false),
        default_entry("segarc"@, "5.0"@, false),
        default_entry("accuracy"@, "0.001"@, false),
        default_entry("FEED"@, "5.0"@, false),
        default_entry("PLUNGE"@, "0.0"@, false),
        default_entry("H_CALC"@, "max_use"@, false),
        default_entry("boxgap"@, "0.25"@, false),
        default_entry("cut_type"@, "engrave"@, false),
        default_entry("bit_shape"@, "VBIT"@, false),
        default_entry("v_bit_angle"@, "60"@, false),
        default_entry("v_bit_dia"@, "0.5"@, false),
        default_entry("v_drv_crner"@, "135"@, false),
        default_entry("v_stp_crner"@, "200"@, false),
        default_entry("v_step_len"@, "0.01"@, false),
        default_entry("allowance"@, "0.0"@, false),
        default_entry("v_max_cut"@, "-1.0"@, false),
        default_entry("v_rough_stk"@, "0.0"@, false),
        default_entry("v_depth_lim"@, "0.0"@, false),
        default_entry("v_check_all"@, "all"@, false),
        default_entry("bmp_turnp"@, "minority"@, false),
        default_entry("bmp_turds"@, "2"@, false),
        default_entry("bmp_alpha"@, "1"@, false),
        default_entry("bmp_optto"@, "0.2"@, false),
        default_entry("bitmap_backend"@, "native-potrace"@, false),
        default_entry("profile_cut"@, "0"@, false),
        default_entry("profile_margin"@, "0.25"@, false),
        default_entry("profile_radius"@, "0.0"@, false),
        default_entry("profile_depth"@, "0.125"@, false),
        default_entry("profile_steps"@, "1"@, false),
        default_entry("profile_endmill_dia"@, "0.25"@, false),
        default_entry("profile_tabs"@, "0"@, false),
        default_entry("profile_tab_height"@, "0.0393701"@, false),
        default_entry("profile_tab_width"@, "0"@, false),
        default_entry("profile_chamfer"@, "0"@, false),
        default_entry("profile_chamfer_depth"@, "0.02"@, false),
        default_entry("profile_chamfer_angle"@, "60"@, false),
        default_entry("profile_width"@, "0"@, false),
        default_entry("profile_height"@, "0"@, false),
        default_entry("profile_aspect"@, "0"@, false),
        default_entry("profile_trace"@, "0"@, false),
        default_entry("profile_align"@, "Mid-Center"@, false),
        default_entry("gpre"@, "G17 M3 S3000"@, false),
        default_entry("gpost"@, "M5|M2"@, false),
        default_entry("return_to_origin"@, "1"@, false),
        default_entry("input_type"@, "text"@, false),
        default_entry("clean_dia"@, ".25"@, false),
        default_entry("clean_dias"@, ".25"@, false),
        default_entry("clean_step"@, "50"@, false),
        default_entry("clean_v"@, "0.05"@, false),
        default_entry("clean_paths"@, "1,1,0,1,0,1,0,0"@, false),
        default_entry("fontfile"@, " "@, true),
        default_entry("fontdir"@, "fonts"@, true),
        default_entry("imagefile"@, "~/None"@, true),
        default_entry("NGC_DIR"@, "~"@, true),
    ]
}

fn push_setting(entries: &mut Vec<LegacySetting>, key: &str, value: &str, quoted: bool)
    ensures
        settings_view(final(entries)@) == settings_view(old(entries)@).push(
            SettingView { key: key@, value: value@, quoted },
        ),
{
    let ghost before = settings_view(entries@);
    entries.push(LegacySetting::new(key, value, quoted));
    assert(settings_view(entries@) =~= before.push(SettingView { key: key@, value: value@, quoted }));
}

/// The built-in settings: every key F-Engrave writes, with its default.
#[verifier::rlimit(100)]
pub fn default_legacy_settings() -> (r: LegacySettings)
    ensures
        r@ == default_views(),
{
    let mut entries: Vec<LegacySetting> = Vec::new();
    assert(settings_view(entries@) =~= seq![]);
    push_setting(&mut entries, "show_axis", "1", false);
    push_setting(&mut entries, "show_box", "1", false);
    push_setting(&mut entries, "show_thick", "1", false);
    push_setting(&mut entries, "flip", "0", false);
    push_setting(&mut entries, "mirror", "0", false);
    push_setting(&mut entries, "outer", "1", false);
    push_setting(&mut entries, "upper", "1", false);
    push_setting(&mut entries, "v_flop", "0", false);
    push_setting(&mut entries, "v_pplot", "0", false);
    push_setting(&mut entries, "inlay", "0", false);
    push_setting(&mut entries, "bmp_long", "1", false);
    push_setting(&mut entries, "var_dis", "1", false);
    push_setting(&mut entries, "ext_char", "0", false);
    push_setting(&mut entries, "useIMGsize", "0", false);
    push_setting(&mut entries, "no_comments", "0", false);
    push_setting(&mut entries, "plotbox", "0", false);
    push_setting(&mut entries, "show_v_path", "1", false);
    push_setting(&mut entries, "show_v_area", "1", false);
    push_setting(&mut entries, "arc_fit", "none", false);
    push_setting(&mut entries, "YSCALE", "2.0", false);
    push_setting(&mut entries, "XSCALE", "100", false);
    push_setting(&mut entries, "LSPACE", "1.1", false);
    push_setting(&mut entries, "CSPACE", "25", false);
    push_setting(&mut entries, "WSPACE", "100", false);
    push_setting(&mut entries, "TANGLE", "0.0", false);
    push_setting(&mut entries, "TRADIUS", "0.0", false);
    push_setting(&mut entries, "ZSAFE", "0.25", false);
    push_setting(&mut entries, "ZCUT", "-0.005", false);
    push_setting(&mut entries, "STHICK", "0.01", false);
    push_setting(&mut entries, "origin", "Default", false);
    push_setting(&mut entries, "justify", "Left", false);
    push_setting(&mut entries, "units", "in", false);
    push_setting(&mut entries, "xorigin", "0.0", false);
    push_setting(&mut entries, "yorigin", "0.0", false);
    push_setting(&mut entries, "segarc", "5.0", false);
    push_setting(&mut entries, "accuracy", "0.001", false);
    push_setting(&mut entries, "FEED", "5.0", false);
    push_setting(&mut entries, "PLUNGE", "0.0", false);
    push_setting(&mut entries, "H_CALC", "max_use", false);
    push_setting(&mut entries, "boxgap", "0.25", false);
    push_setting(&mut entries, "cut_type", "engrave", false);
    push_setting(&mut entries, "bit_shape", "VBIT", false);
    push_setting(&mut entries, "v_bit_angle", "60", false);
    push_setting(&mut entries, "v_bit_dia", "0.5", false);
    push_setting(&mut entries, "v_drv_crner", "135", false);
    push_setting(&mut entries, "v_stp_crner", "200", false);
    push_setting(&mut entries, "v_step_len", "0.01", false);
    push_setting(&mut entries, "allowance", "0.0", false);
    push_setting(&mut entries, "v_max_cut", "-1.0", false);
    push_setting(&mut entries, "v_rough_stk", "0.0", false);
    push_setting(&mut entries, "v_depth_lim", "0.0", false);
    push_setting(&mut entries, "v_check_all", "all", false);
    push_setting(&mut entries, "bmp_turnp", "minority", false);
    push_setting(&mut entries, "bmp_turds", "2", false);
    push_setting(&mut entries, "bmp_alpha", "1", false);
    push_setting(&mut entries, "bmp_optto", "0.2", false);
    push_setting(&mut entries, "bitmap_backend", "native-potrace", false);
    push_setting(&mut entries, "profile_cut", "0", false);
    push_setting(&mut entries, "profile_margin", "0.25", false);
    push_setting(&mut entries, "profile_radius", "0.0", false);
    push_setting(&mut entries, "profile_depth", "0.125", false);
    push_setting(&mut entries, "profile_steps", "1", false);
    push_setting(&mut entries, "profile_endmill_dia", "0.25", false);
    push_setting(&mut entries, "profile_tabs", "0", false);
    push_setting(&mut entries, "profile_tab_height", "0.0393701", false);
    push_setting(&mut entries, "profile_tab_width", "0", false);
    push_setting(&mut entries, "profile_chamfer", "0", false);
    push_setting(&mut entries, "profile_chamfer_depth", "0.02", false);
    push_setting(&mut entries, "profile_chamfer_angle", "60", false);
    push_setting(&mut entries, "profile_width", "0", false);
    push_setting(&mut entries, "profile_height", "0", false);
    push_setting(&mut entries, "profile_aspect", "0", false);
    push_setting(&mut entries, "profile_trace", "0", false);
    push_setting(&mut entries, "profile_align", "Mid-Center", false);
    push_setting(&mut entries, "gpre", "G17 M3 S3000", false);
    push_setting(&mut entries, "gpost", "M5|M2", false);
    push_setting(&mut entries, "return_to_origin", "1", false);
    push_setting(&mut entries, "input_type", "text", false);
    push_setting(&mut entries, "clean_dia", ".25", false);
    push_setting(&mut entries, "clean_dias", ".25", false);
    push_setting(&mut entries, "clean_step", "50", false);
    push_setting(&mut entries, "clean_v", "0.05", false);
    push_setting(&mut entries, "clean_paths", "1,1,0,1,0,1,0,0", false);
    push_setting(&mut entries, "fontfile", " ", true);
    push_setting(&mut entries, "fontdir", "fonts", true);
    push_setting(&mut entries, "imagefile", "~/None", true);
    push_setting(&mut entries, "NGC_DIR", "~", true);
    assert(settings_view(entries@) =~= default_views());
    LegacySettings { entries }
}


/// At most one entry has the key.
pub open spec fn key_at_most_once(es: Seq<SettingView>, key: Seq<char>) -> bool {
    forall|i: int, j: int|
        0 <= i < es.len() && 0 <= j < es.len() && (#[trigger] es[i]).key == key && (
        #[trigger] es[j]).key == key ==> i == j
}

/// `set_or_push` never makes a key occur twice.
pub proof fn lemma_set_keeps_at_most_once(
    es: Seq<SettingView>,
    key: Seq<char>,
    value: Seq<char>,
    quoted: bool,
    k: Seq<char>,
)
    requires
        key_at_most_once(es, k),
    ensures
        key_at_most_once(set_or_push_view(es, key, value, quoted), k),
{
    let u = set_or_push_view(es, key, value, quoted);
    crate::text::lemma_first_where_bounds(es, key_is(key));
    match first_index(es, key) {
        Some(i) => {
            assert forall|a: int| 0 <= a < u.len() implies (#[trigger] u[a]).key == es[a].key by {}
        },
        None => {
            if key == k {
                assert forall|a: int| 0 <= a < es.len() implies (#[trigger] es[a]).key != k by {
                    if es[a].key == k {
                        crate::text::lemma_first_where_some(es, key_is(key), a);
                    }
                }
            }
        },
    }
}

proof fn lemma_last_value_at(es: Seq<SettingView>, key: Seq<char>, i: int)
    requires
        0 <= i < es.len(),
        es[i].key == key,
        forall|j: int| i < j < es.len() ==> (#[trigger] es[j]).key != key,
    ensures
        last_value(es, key) == Some(es[i].value),
    decreases es.len(),
{
    if i < es.len() - 1 {
        let t = es.drop_last();
        assert(es.last() == es[es.len() - 1]);
        assert forall|j: int| i < j < t.len() implies (#[trigger] t[j]).key != key by {
            assert(t[j] == es[j]);
        }
        lemma_last_value_at(t, key, i);
    }
}

proof fn lemma_last_value_same(a: Seq<SettingView>, b: Seq<SettingView>, key: Seq<char>)
    requires
        a.len() == b.len(),
        forall|j: int|
            0 <= j < a.len() ==> ((#[trigger] a[j]).key == key) == (b[j].key == key),
        forall|j: int| 0 <= j < a.len() && (#[trigger] a[j]).key == key ==> a[j].value == b[j].value,
    ensures
        last_value(a, key) == last_value(b, key),
    decreases a.len(),
{
    if a.len() > 0 {
        let ta = a.drop_last();
        let tb = b.drop_last();
        assert(a.last() == a[a.len() - 1]);
        assert(b.last() == b[b.len() - 1]);
        assert forall|j: int| 0 <= j < ta.len() implies ((#[trigger] ta[j]).key == key) == (
        tb[j].key == key) by {
            assert(ta[j] == a[j] && tb[j] == b[j]);
        }
        assert forall|j: int| 0 <= j < ta.len() && (#[trigger] ta[j]).key == key implies ta[j].value
            == tb[j].value by {
            assert(ta[j] == a[j] && tb[j] == b[j]);
        }
        lemma_last_value_same(ta, tb, key);
    }
}

/// Reading a key right after writing it gives the written value, when the
/// key occurs at most once. With two entries for the key, `set_or_push`
/// updates the first while `get_last` reads the last, so the law needs that
/// condition.
pub proof fn law_set_then_get(
    es: Seq<SettingView>,
    key: Seq<char>,
    value: Seq<char>,
    quoted: bool,
)
    requires
        key_at_most_once(es, key),
    ensures
        last_value(set_or_push_view(es, key, value, quoted), key) == Some(value),
{
    let e = SettingView { key, value, quoted };
    crate::text::lemma_first_where_bounds(es, key_is(key));
    match first_index(es, key) {
        Some(i) => {
            let u = es.update(i, e);
            assert forall|j: int| i < j < u.len() implies (#[trigger] u[j]).key != key by {
                assert(u[j] == es[j]);
                assert(es[i].key == key);
            }
            lemma_last_value_at(u, key, i);
        },
        None => {
            let u = es.push(e);
            assert(u.last() == e);
        },
    }
}

/// Writing one key leaves what every other key reads unchanged.
pub proof fn law_set_keeps_other_keys(
    es: Seq<SettingView>,
    key: Seq<char>,
    value: Seq<char>,
    quoted: bool,
    other: Seq<char>,
)
    requires
        other != key,
    ensures
        last_value(set_or_push_view(es, key, value, quoted), other) == last_value(es, other),
{
    let e = SettingView { key, value, quoted };
    crate::text::lemma_first_where_bounds(es, key_is(key));
    match first_index(es, key) {
        Some(i) => {
            let u = es.update(i, e);
            assert forall|j: int| 0 <= j < u.len() implies ((#[trigger] u[j]).key == other) == (
            es[j].key == other) by {
                if j != i {
                    assert(u[j] == es[j]);
                }
            }
            assert forall|j: int| 0 <= j < u.len() && (#[trigger] u[j]).key == other implies u[j].value
                == es[j].value by {
                if j != i {
                    assert(u[j] == es[j]);
                }
            }
            lemma_last_value_same(u, es, other);
        },
        None => {
            let u = es.push(e);
            assert(u.drop_last() =~= es);
        },
    }
}

} // verus!
