//! The settings comments that `to_text` writes read back through `parse`.

use vstd::prelude::*;
use crate::settings::{
    char_is, comment_of, comments_text, escape_quotes, first_char, first_ws, parse_line_view,
    parse_lines_view, parse_view, split_key_value_view, strip_paren, ws_pred, SettingView,
};
use crate::text::{
    find, find_from, is_ws, lemma_first_where_at, lemma_lines_scan_text, lemma_trim_end_noop,
    lemma_trim_end_ws_suffix, lemma_trim_start_noop, lemma_trim_start_ws_prefix, lines,
    lines_scan, matches_at, pad_right, spaces, strip_cr, trim, trim_end, trim_start,
};

verus! {

/// A setting whose comment line reads back unchanged: a nonempty key
/// without whitespace, a value without line breaks, and either a quoted
/// value without `"` or a bare value without surrounding whitespace that
/// does not start with `"`.
pub open spec fn round_trips(e: SettingView) -> bool {
    &&& e.key.len() >= 1
    &&& forall|i: int| 0 <= i < e.key.len() ==> !is_ws(#[trigger] e.key[i])
    &&& forall|i: int| 0 <= i < e.value.len() ==> #[trigger] e.value[i] != '\n'
    &&& if e.quoted {
        forall|i: int| 0 <= i < e.value.len() ==> #[trigger] e.value[i] != '"'
    } else {
        trim(e.value) == e.value && (e.value.len() == 0 || e.value[0] != '"')
    }
}

proof fn lemma_escape_noop(v: Seq<char>)
    requires
        forall|i: int| 0 <= i < v.len() ==> #[trigger] v[i] != '"',
    ensures
        escape_quotes(v) == v,
    decreases v.len(),
{
    if v.len() > 0 {
        let t = v.drop_last();
        assert forall|i: int| 0 <= i < t.len() implies #[trigger] t[i] != '"' by {
            assert(t[i] == v[i]);
        }
        lemma_escape_noop(t);
        assert(v.last() == v[v.len() - 1]);
        assert(t.push(v.last()) =~= v);
    }
}

proof fn lemma_spaces_ws(m: nat)
    ensures
        forall|i: int| 0 <= i < m ==> is_ws(#[trigger] spaces(m)[i]),
{
}

/// `trim` of the text after the key: drops the padding and the separator.
proof fn lemma_trim_after_key(w: Seq<char>, body: Seq<char>)
    requires
        forall|i: int| 0 <= i < w.len() ==> is_ws(#[trigger] w[i]),
        body.len() >= 1,
        !is_ws(body.last()),
    ensures
        trim(w + body) == trim_start(body),
{
    lemma_trim_start_ws_prefix(w, body);
    let b = trim_start(body);
    crate::text::lemma_trim_start_len(body);
    lemma_trim_end_noop(b);
}

/// The padding after the key.
spec fn pad_len(e: SettingView) -> nat {
    if e.key.len() >= 11 {
        0
    } else {
        (11 - e.key.len()) as nat
    }
}

/// The part of the comment after the padded key.
spec fn tail_of(e: SettingView) -> Seq<char> {
    if e.quoted {
        " \""@ + escape_quotes(e.value) + "\" )"@
    } else {
        " "@ + e.value + " )"@
    }
}

proof fn lemma_tail_shape(e: SettingView)
    ensures
        tail_of(e).len() >= 2,
        tail_of(e)[0] == ' ',
        tail_of(e).last() == ')',
        comment_of(e) == "(fengrave_set "@ + (e.key + spaces(pad_len(e))) + tail_of(e),
{
    reveal_strlit(" ");
    reveal_strlit(" )");
    reveal_strlit(" \"");
    reveal_strlit("\" )");
    assert(pad_right(e.key, 11) =~= e.key + spaces(pad_len(e)));
}

#[verifier::rlimit(40)]
proof fn lemma_line_head(e: SettingView)
    requires
        round_trips(e),
    ensures
        find(comment_of(e), "fengrave_set"@) == Some(1int),
        "fengrave_set"@.len() == 12,
        trim(comment_of(e).skip(13)) == e.key + (spaces(pad_len(e)) + tail_of(e)),
        split_key_value_view(e.key + (spaces(pad_len(e)) + tail_of(e))) == Some(
            (e.key, trim(spaces(pad_len(e)) + tail_of(e))),
        ),
{
    let k = e.key;
    let m = pad_len(e);
    let sp = spaces(m);
    let tail = tail_of(e);
    lemma_tail_shape(e);
    lemma_spaces_ws(m);
    reveal_strlit("(fengrave_set ");
    reveal_strlit("fengrave_set");
    let head = "(fengrave_set "@;
    let ident = "fengrave_set"@;
    let line = comment_of(e);
    assert(line[0] == '(');
    assert(!matches_at(line, ident, 0)) by {
        assert(line.subrange(0, 12)[0] != ident[0]);
    }
    assert(line.subrange(1, 13) =~= ident);
    assert(matches_at(line, ident, 1));
    assert(find_from(line, ident, 1) == Some(1int));
    assert(find_from(line, ident, 0) == find_from(line, ident, 1));
    let after = line.skip(13);
    let body = k + (sp + tail);
    assert(after =~= seq![' '] + body);
    assert(body.last() == ')');
    lemma_trim_after_key(seq![' '], body);
    lemma_trim_start_noop(body);
    assert(body[k.len() as int] == ' ') by {
        if m > 0 {
            assert(body[k.len() as int] == sp[0]);
        } else {
            assert(body[k.len() as int] == tail[0]);
        }
    }
    assert forall|j: int| 0 <= j < k.len() implies !(#[trigger] ws_pred()(body[j])) by {
        assert(body[j] == k[j]);
    }
    lemma_first_where_at(body, ws_pred(), k.len() as int);
    assert(body.take(k.len() as int) =~= k);
    assert(body.skip(k.len() as int) =~= sp + tail);
}

proof fn lemma_spaces_sep_ws(m: nat)
    ensures
        forall|i: int| 0 <= i < (spaces(m) + seq![' ']).len() ==> is_ws(
            #[trigger] (spaces(m) + seq![' '])[i],
        ),
{
    assert forall|i: int| 0 <= i < (spaces(m) + seq![' ']).len() implies is_ws(
        #[trigger] (spaces(m) + seq![' '])[i],
    ) by {
        if i < m {
            assert((spaces(m) + seq![' '])[i] == spaces(m)[i]);
        }
    }
}

#[verifier::rlimit(40)]
proof fn lemma_quoted_value(e: SettingView)
    requires
        round_trips(e),
        e.quoted,
    ensures
        ({
            let v = trim(strip_paren(trim(spaces(pad_len(e)) + tail_of(e))));
            &&& v.len() > 0
            &&& v[0] == '"'
            &&& first_char(v.drop_first(), '"') == Some(e.value.len() as int)
            &&& v.drop_first().take(e.value.len() as int) == e.value
        }),
{
    let v = e.value;
    let m = pad_len(e);
    let sp = spaces(m);
    reveal_strlit(" \"");
    reveal_strlit("\" )");
    reveal_strlit("\"");
    lemma_escape_noop(v);
    let tail = tail_of(e);
    let inner_tail = "\""@ + v + "\" )"@;
    assert(tail =~= seq![' '] + inner_tail);
    assert(sp + tail =~= (sp + seq![' ']) + inner_tail);
    lemma_spaces_sep_ws(m);
    assert(inner_tail.last() == ')');
    lemma_trim_after_key(sp + seq![' '], inner_tail);
    lemma_trim_start_noop(inner_tail);
    let quoted = "\""@ + v + "\""@;
    let stripped = strip_paren(inner_tail);
    assert(stripped =~= quoted + seq![' ']);
    lemma_trim_end_ws_suffix(quoted, seq![' ']);
    assert(quoted.last() == '"');
    lemma_trim_end_noop(quoted);
    assert(stripped[0] == '"');
    lemma_trim_start_noop(stripped);
    assert(trim(stripped) == quoted);
    let inner = quoted.drop_first();
    assert(inner =~= v + seq!['"']);
    assert forall|j: int| 0 <= j < v.len() implies !(#[trigger] char_is('"')(inner[j])) by {
        assert(inner[j] == v[j]);
    }
    lemma_first_where_at(inner, char_is('"'), v.len() as int);
    assert(inner.take(v.len() as int) =~= v);
}

#[verifier::rlimit(40)]
proof fn lemma_bare_value(e: SettingView)
    requires
        round_trips(e),
        !e.quoted,
    ensures
        trim(strip_paren(trim(spaces(pad_len(e)) + tail_of(e)))) == e.value,
{
    let v = e.value;
    let m = pad_len(e);
    let sp = spaces(m);
    reveal_strlit(" ");
    reveal_strlit(" )");
    let tail = tail_of(e);
    let rest_tail = v + " )"@;
    assert(tail =~= seq![' '] + rest_tail);
    assert(sp + tail =~= (sp + seq![' ']) + rest_tail);
    lemma_spaces_sep_ws(m);
    assert(rest_tail.last() == ')');
    lemma_trim_after_key(sp + seq![' '], rest_tail);
    if v.len() == 0 {
        assert(rest_tail =~= seq![' '] + seq![')']);
        lemma_trim_start_ws_prefix(seq![' '], seq![')']);
        lemma_trim_start_noop(seq![')']);
        assert(strip_paren(seq![')']) =~= seq![]);
        assert(trim(seq![]) =~= seq![]);
    } else {
        crate::text::lemma_trim_first_not_ws(v);
        lemma_trim_start_noop(rest_tail);
        let stripped = strip_paren(rest_tail);
        assert(stripped =~= v + seq![' ']);
        lemma_trim_start_noop(stripped);
        lemma_trim_end_ws_suffix(v, seq![' ']);
        crate::text::lemma_trim_last_not_ws(v);
        lemma_trim_end_noop(v);
    }
}

proof fn lemma_parse_comment(e: SettingView)
    requires
        round_trips(e),
    ensures
        parse_line_view(comment_of(e)) == Some(e),
{
    lemma_line_head(e);
    if e.quoted {
        lemma_quoted_value(e);
    } else {
        lemma_bare_value(e);
    }
}

/// A comment line holds no line break and ends with `)`.
proof fn lemma_comment_shape(e: SettingView)
    requires
        round_trips(e),
    ensures
        forall|i: int| 0 <= i < comment_of(e).len() ==> #[trigger] comment_of(e)[i] != '\n',
        comment_of(e).len() >= 1,
        comment_of(e).last() == ')',
{
    let k = e.key;
    let v = e.value;
    reveal_strlit("(fengrave_set ");
    reveal_strlit(" ");
    reveal_strlit(" )");
    reveal_strlit(" \"");
    reveal_strlit("\" )");
    let line = comment_of(e);
    let p = pad_right(k, 11);
    assert forall|i: int| 0 <= i < p.len() implies #[trigger] p[i] != '\n' by {
        if i < k.len() {
            assert(p[i] == k[i]);
            assert(!is_ws(k[i]));
        }
    }
    if e.quoted {
        lemma_escape_noop(v);
    }
    assert forall|i: int| 0 <= i < line.len() implies #[trigger] line[i] != '\n' by {
        let h = "(fengrave_set "@;
        if i >= h.len() + p.len() {
            let j = i - h.len() - p.len();
            if e.quoted {
                let t = " \""@ + v + "\" )"@;
                assert(line =~= h + p + t);
                assert(line[i] == t[j]);
                if 2 <= j < 2 + v.len() {
                    assert(t[j] == v[j - 2]);
                }
            } else {
                let t = " "@ + v + " )"@;
                assert(line =~= h + p + t);
                assert(line[i] == t[j]);
                if 1 <= j < 1 + v.len() {
                    assert(t[j] == v[j - 1]);
                }
            }
        } else if i >= h.len() {
            if e.quoted {
                assert(line =~= h + p + (" \""@ + v + "\" )"@));
            } else {
                assert(line =~= h + p + (" "@ + v + " )"@));
            }
            assert(line[i] == p[i - h.len()]);
        } else {
            if e.quoted {
                assert(line =~= h + p + (" \""@ + v + "\" )"@));
            } else {
                assert(line =~= h + p + (" "@ + v + " )"@));
            }
            assert(line[i] == h[i]);
        }
    }
}

proof fn lemma_lines_of_comments(es: Seq<SettingView>, r: Seq<char>)
    requires
        forall|i: int| 0 <= i < es.len() ==> round_trips(#[trigger] es[i]),
    ensures
        lines_scan(comments_text(es) + r, seq![]) == es.map_values(|e: SettingView| comment_of(e))
            + lines_scan(r, seq![]),
    decreases es.len(),
{
    if es.len() == 0 {
        assert(comments_text(es) + r =~= r);
        assert(es.map_values(|e: SettingView| comment_of(e)) + lines_scan(r, seq![]) =~= lines_scan(
            r,
            seq![],
        ));
    } else {
        let init = es.drop_last();
        let last = es.last();
        assert(last == es[es.len() - 1]);
        assert forall|i: int| 0 <= i < init.len() implies round_trips(#[trigger] init[i]) by {
            assert(init[i] == es[i]);
        }
        let c = comment_of(last);
        let r2 = c + seq!['\n'] + r;
        lemma_lines_of_comments(init, r2);
        assert(comments_text(es) + r =~= comments_text(init) + r2);
        lemma_comment_shape(last);
        lemma_lines_scan_text(c, seq!['\n'] + r, seq![]);
        assert(c + (seq!['\n'] + r) =~= r2);
        assert(seq![] + c =~= c);
        assert((seq!['\n'] + r)[0] == '\n');
        assert((seq!['\n'] + r).drop_first() =~= r);
        assert(strip_cr(c) == c);
        assert(es.map_values(|e: SettingView| comment_of(e)) =~= init.map_values(
            |e: SettingView| comment_of(e),
        ).push(c));
        assert(init.map_values(|e: SettingView| comment_of(e)) + (seq![c] + lines_scan(r, seq![]))
            =~= es.map_values(|e: SettingView| comment_of(e)) + lines_scan(r, seq![]));
    }
}

proof fn lemma_parse_comment_lines(es: Seq<SettingView>)
    requires
        forall|i: int| 0 <= i < es.len() ==> round_trips(#[trigger] es[i]),
    ensures
        parse_lines_view(es.map_values(|e: SettingView| comment_of(e))) == es,
    decreases es.len(),
{
    let ls = es.map_values(|e: SettingView| comment_of(e));
    if es.len() == 0 {
        assert(ls =~= seq![]);
        assert(parse_lines_view(ls) =~= es);
    } else {
        let init = es.drop_last();
        assert(es.last() == es[es.len() - 1]);
        assert forall|i: int| 0 <= i < init.len() implies round_trips(#[trigger] init[i]) by {
            assert(init[i] == es[i]);
        }
        lemma_parse_comment_lines(init);
        assert(ls.drop_last() =~= init.map_values(|e: SettingView| comment_of(e)));
        lemma_parse_comment(es.last());
        assert(init.push(es.last()) =~= es);
    }
}

/// Settings written as comment lines read back as the same settings, for
/// every list whose entries round-trip (see `round_trips`); a value with a
/// line break or a quote inside a quoted value is where this stops holding.
pub proof fn law_comments_round_trip(es: Seq<SettingView>)
    requires
        forall|i: int| 0 <= i < es.len() ==> round_trips(#[trigger] es[i]),
    ensures
        parse_view(comments_text(es)) == es,
{
    lemma_lines_of_comments(es, seq![]);
    assert(comments_text(es) + seq![] =~= comments_text(es));
    assert(es.map_values(|e: SettingView| comment_of(e)) + lines_scan(seq![], seq![])
        =~= es.map_values(|e: SettingView| comment_of(e)));
    lemma_parse_comment_lines(es);
}

} // verus!
