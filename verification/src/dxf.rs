//! Reading the structure of DXF artwork: the group pairs of the file and
//! the drawing entities they make up, and the errors of DXF input.
use vstd::prelude::*;
use crate::text::{
    all_digits, chars_of, decimal, digits_value, drop_sign, is_digit, is_ws, lemma_decimal,
    lemma_lines_scan_text, lemma_trim_end_noop, lemma_trim_start_noop,
    lemma_trim_start_ws_prefix, lines, lines_scan, lines_of, pad_left, parse_i32,
    parse_i32_chars, push_str, seqs_view, str_eq, strip_cr, string_from_chars, trim, trim_chars,
    trim_end, trim_start,
};
use crate::potrace::{group_text, int_text};

verus! {

/// A DXF file could not be read.
#[derive(Debug, Clone, PartialEq, Eq)]
pub enum DxfError {
    /// Reading `path` failed with the system's message `source`.
    Read { path: String, source: String },
    /// Parsing was stopped by its cancel hook.
    Canceled,
}

impl DxfError {
    /// The message shown for this error.
    pub fn message(&self) -> (r: String)
        ensures
            r@ == (match self {
                DxfError::Read { path, source } => "unable to read DXF `"@ + path@ + "`: "@
                    + source@,
                DxfError::Canceled => "DXF parsing canceled"@,
            }),
    {
        let mut out: Vec<char> = Vec::new();
        match self {
            DxfError::Read { path, source } => {
                push_str(&mut out, "unable to read DXF `");
                push_str(&mut out, path.as_str());
                push_str(&mut out, "`: ");
                push_str(&mut out, source.as_str());
            },
            DxfError::Canceled => push_str(&mut out, "DXF parsing canceled"),
        }
        string_from_chars(&out)
    }
}

/// The groups of `s` with their values as character sequences.
pub open spec fn pairs_view(s: Seq<(i32, String)>) -> Seq<(i32, Seq<char>)> {
    Seq::new(s.len(), |i: int| (s[i].0, s[i].1@))
}

/// The groups of a DXF text split into lines `ls`: lines are taken two at a
/// time, a code line and a value line; a pair whose trimmed code line is not
/// an `i32` is skipped, and a lone last line is ignored. Values are trimmed.
pub open spec fn groups_of(ls: Seq<Seq<char>>) -> Seq<(i32, Seq<char>)>
    decreases ls.len(),
{
    if ls.len() < 2 {
        seq![]
    } else {
        let rest = groups_of(ls.skip(2));
        match parse_i32(trim(ls[0])) {
            Some(c) => seq![(c, trim(ls[1]))] + rest,
            None => rest,
        }
    }
}

/// The group pairs of a DXF text.
pub fn group_pairs(input: &str) -> (r: Vec<(i32, String)>)
    ensures
        pairs_view(r@) == groups_of(lines(input@)),
{
    let chars = chars_of(input);
    let ls = lines_of(chars.as_slice());
    let ghost lv = seqs_view(ls@);
    let mut out: Vec<(i32, String)> = Vec::new();
    let mut i: usize = 0;
    assert(lv.skip(0) =~= lv);
    assert(pairs_view(out@) =~= Seq::<(i32, Seq<char>)>::empty());
    while ls.len() - i > 1
        invariant
            i <= ls.len(),
            lv == seqs_view(ls@),
            lv == lines(input@),
            pairs_view(out@) + groups_of(lv.skip(i as int)) == groups_of(lv),
        decreases ls.len() - i,
    {
        let ghost rest = lv.skip(i as int);
        assert(rest.skip(2) =~= lv.skip(i + 2));
        assert(rest[0] == ls[i as int]@ && rest[1] == ls[i + 1]@);
        let code = trim_chars(ls[i].as_slice());
        let value = trim_chars(ls[i + 1].as_slice());
        match parse_i32_chars(code.as_slice()) {
            Some(c) => {
                let ghost before = pairs_view(out@);
                out.push((c, string_from_chars(value.as_slice())));
                assert(pairs_view(out@) =~= before + seq![(c, trim(rest[1]))]);
                assert(pairs_view(out@) + groups_of(lv.skip(i + 2)) =~= before + (seq![
                    (c, trim(rest[1])),
                ] + groups_of(lv.skip(i + 2))));
            },
            None => {},
        }
        i = i + 2;
    }
    assert(groups_of(lv.skip(i as int)) =~= Seq::<(i32, Seq<char>)>::empty());
    assert(pairs_view(out@) + Seq::<(i32, Seq<char>)>::empty() =~= pairs_view(out@));
    out
}

/// Where the entity whose groups start at `i` ends: at the next group with
/// code 0, or at the end.
pub open spec fn entity_end(ps: Seq<(i32, Seq<char>)>, i: int) -> int
    decreases ps.len() - i,
{
    if i >= ps.len() || i < 0 || ps[i].0 == 0 {
        i
    } else {
        entity_end(ps, i + 1)
    }
}

/// An entity's groups end at a group with code 0 or at the end of the file.
pub proof fn lemma_entity_end(ps: Seq<(i32, Seq<char>)>, i: int)
    requires
        0 <= i <= ps.len(),
    ensures
        i <= entity_end(ps, i) <= ps.len(),
        forall|j: int| i <= j < entity_end(ps, i) ==> #[trigger] ps[j].0 != 0,
        entity_end(ps, i) < ps.len() ==> ps[entity_end(ps, i)].0 == 0,
    decreases ps.len() - i,
{
    if i < ps.len() && ps[i].0 != 0 {
        lemma_entity_end(ps, i + 1);
    }
}

/// The end of the entity whose groups start at `idx`.
pub fn collect_entity(pairs: &[(i32, String)], idx: usize) -> (r: usize)
    requires
        idx <= pairs.len(),
    ensures
        r == entity_end(pairs_view(pairs@), idx as int),
{
    let ghost ps = pairs_view(pairs@);
    let mut i = idx;
    while i < pairs.len() && pairs[i].0 != 0
        invariant
            idx <= i <= pairs.len(),
            ps == pairs_view(pairs@),
            entity_end(ps, i as int) == entity_end(ps, idx as int),
        decreases pairs.len() - i,
    {
        i = i + 1;
    }
    i
}

/// Whether a flags value marks a polyline closed: its lowest bit is set; a
/// value that is not an `i32` counts as no flags.
pub open spec fn closed_flag(v: Seq<char>) -> bool {
    match parse_i32(v) {
        Some(f) => f & 1 == 1,
        None => false,
    }
}

/// Whether the groups of an LWPOLYLINE mark it closed: the last flags group
/// (code 70) decides.
pub open spec fn lw_closed(g: Seq<(i32, Seq<char>)>) -> bool
    decreases g.len(),
{
    if g.len() == 0 {
        false
    } else if g.last().0 == 70 {
        closed_flag(g.last().1)
    } else {
        lw_closed(g.drop_last())
    }
}

/// A drawing entity of a DXF file that artwork is read from, with the
/// groups that carry its coordinates.
#[derive(Debug, Clone, PartialEq, Eq)]
pub enum DxfEntity {
    /// A LINE, with its groups.
    Line(Vec<(i32, String)>),
    /// An LWPOLYLINE, with its groups.
    LwPolyline { closed: bool, groups: Vec<(i32, String)> },
    /// A POLYLINE, with the groups of each of its VERTEX entities.
    Polyline { closed: bool, vertices: Vec<Vec<(i32, String)>> },
}

/// A drawing entity with its groups as plain values.
pub enum DxfEntityView {
    Line(Seq<(i32, Seq<char>)>),
    LwPolyline { closed: bool, groups: Seq<(i32, Seq<char>)> },
    Polyline { closed: bool, vertices: Seq<Seq<(i32, Seq<char>)>> },
}

/// The groups of each vertex.
pub open spec fn vertices_view(v: Seq<Vec<(i32, String)>>) -> Seq<Seq<(i32, Seq<char>)>> {
    Seq::new(v.len(), |i: int| pairs_view(v[i]@))
}

impl View for DxfEntity {
    type V = DxfEntityView;

    open spec fn view(&self) -> DxfEntityView {
        match self {
            DxfEntity::Line(g) => DxfEntityView::Line(pairs_view(g@)),
            DxfEntity::LwPolyline { closed, groups } => DxfEntityView::LwPolyline {
                closed: *closed,
                groups: pairs_view(groups@),
            },
            DxfEntity::Polyline { closed, vertices } => DxfEntityView::Polyline {
                closed: *closed,
                vertices: vertices_view(vertices@),
            },
        }
    }
}

/// The entities of `s` as plain values.
pub open spec fn entities_view(s: Seq<DxfEntity>) -> Seq<DxfEntityView> {
    Seq::new(s.len(), |i: int| s[i]@)
}

/// The POLYLINE whose groups continue at `i`, having read the flags
/// `closed` and the vertices `verts` so far, and where reading goes on after
/// it: its own groups may set the flags; each VERTEX adds the groups up to
/// the next entity; SEQEND ends it; any other entity, or the end of the file,
/// ends it too and is read next.
pub open spec fn scan_polyline(
    ps: Seq<(i32, Seq<char>)>,
    i: int,
    closed: bool,
    verts: Seq<Seq<(i32, Seq<char>)>>,
) -> (DxfEntityView, int)
    decreases ps.len() - i,
{
    if i >= ps.len() || i < 0 {
        (DxfEntityView::Polyline { closed, vertices: verts }, i)
    } else if ps[i].0 != 0 {
        scan_polyline(
            ps,
            i + 1,
            if ps[i].0 == 70 {
                closed_flag(ps[i].1)
            } else {
                closed
            },
            verts,
        )
    } else if ps[i].1 == "VERTEX"@ {
        let e = entity_end(ps, i + 1);
        proof {
            lemma_entity_end(ps, i + 1);
        }
        scan_polyline(ps, e, closed, verts.push(ps.subrange(i + 1, e)))
    } else if ps[i].1 == "SEQEND"@ {
        (DxfEntityView::Polyline { closed, vertices: verts }, i + 1)
    } else {
        (DxfEntityView::Polyline { closed, vertices: verts }, i)
    }
}

/// Reading a POLYLINE never goes back.
pub proof fn lemma_scan_polyline_advances(
    ps: Seq<(i32, Seq<char>)>,
    i: int,
    closed: bool,
    verts: Seq<Seq<(i32, Seq<char>)>>,
)
    requires
        0 <= i <= ps.len(),
    ensures
        i <= scan_polyline(ps, i, closed, verts).1 <= ps.len(),
    decreases ps.len() - i,
{
    if i < ps.len() {
        if ps[i].0 != 0 {
            lemma_scan_polyline_advances(
                ps,
                i + 1,
                if ps[i].0 == 70 {
                    closed_flag(ps[i].1)
                } else {
                    closed
                },
                verts,
            );
        } else if ps[i].1 == "VERTEX"@ {
            let e = entity_end(ps, i + 1);
            lemma_entity_end(ps, i + 1);
            lemma_scan_polyline_advances(ps, e, closed, verts.push(ps.subrange(i + 1, e)));
        }
    }
}

/// The entities read from the groups `ps` from `i` on: a group with code 0
/// starts an entity; LINE and LWPOLYLINE take the groups up to the next
/// entity, POLYLINE reads on through its vertices, and every other entity
/// or stray group is passed over.
pub open spec fn scan_entities(ps: Seq<(i32, Seq<char>)>, i: int) -> Seq<DxfEntityView>
    decreases ps.len() - i,
{
    if i >= ps.len() || i < 0 {
        seq![]
    } else if ps[i].0 != 0 {
        scan_entities(ps, i + 1)
    } else if ps[i].1 == "LINE"@ {
        let e = entity_end(ps, i + 1);
        proof {
            lemma_entity_end(ps, i + 1);
        }
        seq![DxfEntityView::Line(ps.subrange(i + 1, e))] + scan_entities(ps, e)
    } else if ps[i].1 == "LWPOLYLINE"@ {
        let e = entity_end(ps, i + 1);
        proof {
            lemma_entity_end(ps, i + 1);
        }
        seq![
            DxfEntityView::LwPolyline {
                closed: lw_closed(ps.subrange(i + 1, e)),
                groups: ps.subrange(i + 1, e),
            },
        ] + scan_entities(ps, e)
    } else if ps[i].1 == "POLYLINE"@ {
        let (p, n) = scan_polyline(ps, i + 1, false, seq![]);
        proof {
            lemma_scan_polyline_advances(ps, i + 1, false, seq![]);
        }
        seq![p] + scan_entities(ps, n)
    } else {
        scan_entities(ps, i + 1)
    }
}

/// The entities of a DXF text.
pub open spec fn dxf_entities(input: Seq<char>) -> Seq<DxfEntityView> {
    scan_entities(groups_of(lines(input)), 0)
}

/// Copies the groups `start..end`.
fn copy_groups(pairs: &[(i32, String)], start: usize, end: usize) -> (r: Vec<(i32, String)>)
    requires
        start <= end <= pairs.len(),
    ensures
        pairs_view(r@) == pairs_view(pairs@).subrange(start as int, end as int),
{
    let mut out: Vec<(i32, String)> = Vec::new();
    let mut j = start;
    while j < end
        invariant
            start <= j <= end <= pairs.len(),
            pairs_view(out@) == pairs_view(pairs@).subrange(start as int, j as int),
        decreases end - j,
    {
        let ghost before = pairs_view(out@);
        let value = pairs[j].1.clone();
        assert(value@ == pairs@[j as int].1@);
        out.push((pairs[j].0, value));
        assert(out@[out@.len() - 1] == (pairs@[j as int].0, value));
        assert(pairs_view(out@) =~= before.push((pairs@[j as int].0, pairs@[j as int].1@)));
        assert(pairs_view(out@) =~= pairs_view(pairs@).subrange(start as int, j + 1));
        j = j + 1;
    }
    out
}

/// Whether the LWPOLYLINE groups `start..end` mark it closed.
fn lw_closed_in(pairs: &[(i32, String)], start: usize, end: usize) -> (r: bool)
    requires
        start <= end <= pairs.len(),
    ensures
        r == lw_closed(pairs_view(pairs@).subrange(start as int, end as int)),
{
    let ghost ps = pairs_view(pairs@);
    let mut closed = false;
    let mut j = start;
    while j < end
        invariant
            start <= j <= end <= pairs.len(),
            ps == pairs_view(pairs@),
            closed == lw_closed(ps.subrange(start as int, j as int)),
        decreases end - j,
    {
        let ghost g = ps.subrange(start as int, j + 1);
        assert(g.drop_last() =~= ps.subrange(start as int, j as int));
        if pairs[j].0 == 70 {
            closed = flag_set(pairs[j].1.as_str());
        }
        j = j + 1;
    }
    closed
}

/// Whether a flags value marks a polyline closed.
fn flag_set(value: &str) -> (r: bool)
    ensures
        r == closed_flag(value@),
{
    let chars = chars_of(value);
    match parse_i32_chars(chars.as_slice()) {
        Some(f) => f & 1 == 1,
        None => false,
    }
}

/// Reads the POLYLINE whose groups continue at `idx`.
fn read_polyline(pairs: &[(i32, String)], idx: usize) -> (r: (DxfEntity, usize))
    requires
        idx <= pairs.len(),
    ensures
        (r.0@, r.1 as int) == scan_polyline(pairs_view(pairs@), idx as int, false, seq![]),
{
    let ghost ps = pairs_view(pairs@);
    let mut closed = false;
    let mut vertices: Vec<Vec<(i32, String)>> = Vec::new();
    let mut i = idx;
    assert(vertices_view(vertices@) =~= Seq::<Seq<(i32, Seq<char>)>>::empty());
    while i < pairs.len()
        invariant
            idx <= i <= pairs.len(),
            ps == pairs_view(pairs@),
            scan_polyline(ps, i as int, closed, vertices_view(vertices@)) == scan_polyline(
                ps,
                idx as int,
                false,
                seq![],
            ),
        decreases pairs.len() - i,
    {
        if pairs[i].0 != 0 {
            if pairs[i].0 == 70 {
                closed = flag_set(pairs[i].1.as_str());
            }
            i = i + 1;
        } else if str_eq(pairs[i].1.as_str(), "VERTEX") {
            let e = collect_entity(pairs, i + 1);
            proof {
                lemma_entity_end(ps, i + 1);
            }
            let ghost before = vertices_view(vertices@);
            vertices.push(copy_groups(pairs, i + 1, e));
            assert(vertices_view(vertices@) =~= before.push(ps.subrange(i + 1, e as int)));
            i = e;
        } else if str_eq(pairs[i].1.as_str(), "SEQEND") {
            return (DxfEntity::Polyline { closed, vertices }, i + 1);
        } else {
            return (DxfEntity::Polyline { closed, vertices }, i);
        }
    }
    (DxfEntity::Polyline { closed, vertices }, i)
}

/// Reads the drawing entities of a DXF text, asking `cancel` before each
/// group it looks at; stops with `Canceled` when the hook asks to.
pub fn dxf_entities_with_cancel<C: Fn() -> bool>(input: &str, cancel: &C) -> (r: Result<
    Vec<DxfEntity>,
    DxfError,
>)
    requires
        cancel.requires(()),
    ensures
        match r {
            Ok(v) => entities_view(v@) == dxf_entities(input@),
            Err(e) => e == DxfError::Canceled,
        },
        (forall|b: bool| cancel.ensures((), b) ==> !b) ==> r is Ok,
        (forall|b: bool| cancel.ensures((), b) ==> b) && groups_of(lines(input@)).len() > 0 ==> r matches Err(
            DxfError::Canceled,
        ),
{
    let pairs = group_pairs(input);
    let ghost ps = pairs_view(pairs@);
    let mut out: Vec<DxfEntity> = Vec::new();
    let mut idx: usize = 0;
    assert(entities_view(out@) =~= Seq::<DxfEntityView>::empty());
    while idx < pairs.len()
        invariant
            (forall|b: bool| cancel.ensures((), b) ==> b) ==> idx == 0,
            idx <= pairs.len(),
            cancel.requires(()),
            ps == pairs_view(pairs@),
            ps == groups_of(lines(input@)),
            entities_view(out@) + scan_entities(ps, idx as int) == scan_entities(ps, 0),
        decreases pairs.len() - idx,
    {
        if cancel() {
            return Err(DxfError::Canceled);
        }
        if pairs[idx].0 != 0 {
            idx = idx + 1;
        } else if str_eq(pairs[idx].1.as_str(), "LINE") {
            let e = collect_entity(pairs.as_slice(), idx + 1);
            proof {
                lemma_entity_end(ps, idx + 1);
            }
            let ghost before = entities_view(out@);
            out.push(DxfEntity::Line(copy_groups(pairs.as_slice(), idx + 1, e)));
            assert(entities_view(out@) =~= before + seq![
                DxfEntityView::Line(ps.subrange(idx + 1, e as int)),
            ]);
            assert(entities_view(out@) + scan_entities(ps, e as int) =~= before + (seq![
                DxfEntityView::Line(ps.subrange(idx + 1, e as int)),
            ] + scan_entities(ps, e as int)));
            idx = e;
        } else if str_eq(pairs[idx].1.as_str(), "LWPOLYLINE") {
            let e = collect_entity(pairs.as_slice(), idx + 1);
            proof {
                lemma_entity_end(ps, idx + 1);
            }
            let closed = lw_closed_in(pairs.as_slice(), idx + 1, e);
            let groups = copy_groups(pairs.as_slice(), idx + 1, e);
            let ghost item = DxfEntityView::LwPolyline {
                closed: lw_closed(ps.subrange(idx + 1, e as int)),
                groups: ps.subrange(idx + 1, e as int),
            };
            let ghost before = entities_view(out@);
            out.push(DxfEntity::LwPolyline { closed, groups });
            assert(entities_view(out@) =~= before + seq![item]);
            assert(entities_view(out@) + scan_entities(ps, e as int) =~= before + (seq![item]
                + scan_entities(ps, e as int)));
            idx = e;
        } else if str_eq(pairs[idx].1.as_str(), "POLYLINE") {
            let (poly, next) = read_polyline(pairs.as_slice(), idx + 1);
            proof {
                lemma_scan_polyline_advances(ps, idx + 1, false, seq![]);
            }
            let ghost item = poly@;
            let ghost before = entities_view(out@);
            out.push(poly);
            assert(entities_view(out@) =~= before + seq![item]);
            assert(entities_view(out@) + scan_entities(ps, next as int) =~= before + (seq![item]
                + scan_entities(ps, next as int)));
            idx = next;
        } else {
            idx = idx + 1;
        }
    }
    assert(entities_view(out@) + Seq::<DxfEntityView>::empty() =~= entities_view(out@));
    Ok(out)
}

/// The text of the groups `gs`, each written as the DXF writer writes a
/// group: the code right-aligned in three columns, then the value, each on
/// its own line.
pub open spec fn groups_text(gs: Seq<(i32, Seq<char>)>) -> Seq<char>
    decreases gs.len(),
{
    if gs.len() == 0 {
        seq![]
    } else {
        group_text(gs[0].0, gs[0].1) + groups_text(gs.drop_first())
    }
}

/// A value that fits on one line: no line feed and no carriage return.
pub open spec fn one_line(v: Seq<char>) -> bool {
    forall|i: int| 0 <= i < v.len() ==> #[trigger] v[i] != '\n' && v[i] != '\r'
}

/// A line followed by a line feed is read as that line, then the rest.
proof fn lemma_lines_line(x: Seq<char>, r: Seq<char>)
    requires
        forall|i: int| 0 <= i < x.len() ==> #[trigger] x[i] != '\n',
    ensures
        lines_scan(x + seq!['\n'] + r, seq![]) == seq![strip_cr(x)] + lines_scan(r, seq![]),
{
    assert(x + seq!['\n'] + r =~= x + (seq!['\n'] + r));
    lemma_lines_scan_text(x, seq!['\n'] + r, seq![]);
    assert(seq![] + x =~= x);
    assert((seq!['\n'] + r).drop_first() =~= r);
}

/// The code column of a group is read back as its code.
proof fn lemma_code_column(c: i32)
    ensures
        strip_cr(pad_left(int_text(c as int), 3, ' ')) == pad_left(int_text(c as int), 3, ' '),
        parse_i32(trim(pad_left(int_text(c as int), 3, ' '))) == Some(c),
        forall|i: int|
            0 <= i < pad_left(int_text(c as int), 3, ' ').len() ==> #[trigger] pad_left(
                int_text(c as int),
                3,
                ' ',
            )[i] != '\n',
{
    let ci = c as int;
    let t = int_text(ci);
    let mag: nat = if ci < 0 {
        (-ci) as nat
    } else {
        ci as nat
    };
    lemma_decimal(mag);
    let d = decimal(mag);
    assert(is_digit(d.last()));
    assert(is_digit(d[0]));
    if ci < 0 {
        assert(t == seq!['-'] + d);
        assert(t.last() == d.last());
        assert(drop_sign(t) =~= d);
    } else {
        assert(t == d);
        assert(drop_sign(t) == d);
    }
    assert(t.len() >= 1 && !is_ws(t[0]) && !is_ws(t.last()));
    let p = pad_left(t, 3, ' ');
    let w: Seq<char> = if t.len() >= 3 {
        seq![]
    } else {
        Seq::new((3 - t.len()) as nat, |i: int| ' ')
    };
    assert(p =~= w + t);
    assert(p.last() == t.last());
    lemma_trim_start_ws_prefix(w, t);
    lemma_trim_start_noop(t);
    lemma_trim_end_noop(t);
    assert(trim(p) == t);
    assert forall|i: int| 0 <= i < p.len() implies #[trigger] p[i] != '\n' by {
        if i >= w.len() {
            assert(p[i] == t[i - w.len()]);
            if i - w.len() > 0 || ci >= 0 {
                assert(is_digit(d[if ci < 0 { i - w.len() - 1 } else { i - w.len() }]));
            }
        }
    }
}

/// Written groups are read back: the group reader returns each group the
/// DXF writer wrote, in order, with its value trimmed.
pub proof fn law_groups_read_back(gs: Seq<(i32, Seq<char>)>)
    requires
        forall|k: int| 0 <= k < gs.len() ==> one_line(#[trigger] gs[k].1),
    ensures
        groups_of(lines(groups_text(gs))) == Seq::new(gs.len(), |k: int| (gs[k].0, trim(gs[k].1))),
    decreases gs.len(),
{
    if gs.len() == 0 {
        assert(lines(groups_text(gs)) =~= Seq::<Seq<char>>::empty());
        assert(groups_of(lines(groups_text(gs))) =~= Seq::new(
            gs.len(),
            |k: int| (gs[k].0, trim(gs[k].1)),
        ));
    } else {
        let rest = gs.drop_first();
        assert forall|k: int| 0 <= k < rest.len() implies one_line(#[trigger] rest[k].1) by {
            assert(rest[k] == gs[k + 1]);
        }
        law_groups_read_back(rest);
        let (c, v) = gs[0];
        assert(one_line(gs[0].1));
        let col = pad_left(int_text(c as int), 3, ' ');
        lemma_code_column(c);
        let tail = groups_text(rest);
        assert(groups_text(gs) =~= col + seq!['\n'] + (v + seq!['\n'] + tail));
        lemma_lines_line(col, v + seq!['\n'] + tail);
        assert forall|i: int| 0 <= i < v.len() implies #[trigger] v[i] != '\n' by {}
        lemma_lines_line(v, tail);
        assert(v.len() == 0 || v.last() != '\r');
        assert(strip_cr(v) == v);
        let ls = lines(groups_text(gs));
        assert(ls =~= seq![col, v] + lines(tail));
        assert(ls.skip(2) =~= lines(tail));
        assert(ls[0] == col && ls[1] == v);
        assert(groups_of(ls) =~= seq![(c, trim(v))] + groups_of(lines(tail)));
        assert(groups_of(ls) =~= Seq::new(gs.len(), |k: int| (gs[k].0, trim(gs[k].1))));
    }
}

} // verus!
