//! Which cleanup passes a job asks for, read from the legacy `clean_paths` list.
use vstd::prelude::*;
use crate::text::{chars_of, split_on, split_on_chars, string_from_chars, seqs_view};
use crate::settings::{LegacySettings, legacy_bool_value, legacy_true, last_value, opt_str_view};

verus! {

/// The cutter a cleanup pass uses.
#[derive(Debug, Clone, Copy, PartialEq, Eq)]
pub enum CleanupBit {
    Straight,
    VBit,
}

impl CleanupBit {
    /// The file-name suffix of this cleanup's G-code: `clean` or `v_clean`.
    pub fn suffix(self) -> (r: &'static str)
        ensures
            r@ == (match self {
                CleanupBit::Straight => "clean"@,
                CleanupBit::VBit => "v_clean"@,
            }),
    {
        match self {
            CleanupBit::Straight => "clean",
            CleanupBit::VBit => "v_clean",
        }
    }
}

/// The cleanup passes selected for one cutter.
#[derive(Debug, Clone, Copy, Default, PartialEq, Eq)]
pub struct CleanupSelection {
    pub profile: bool,
    pub x: bool,
    pub y: bool,
    pub loops: bool,
}

impl CleanupSelection {
    /// Whether any pass is selected.
    pub fn any(self) -> (r: bool)
        ensures
            r == (self.profile || self.x || self.y || self.loops),
    {
        self.profile || self.x || self.y || self.loops
    }
}

/// Cleanup generation was stopped by its cancel hook.
#[derive(Debug, Clone, Copy, PartialEq, Eq)]
pub struct CleanupCanceled;

/// The `clean_paths` flags: the comma-separated pieces, each read as a legacy boolean.
pub open spec fn clean_paths_of(v: Seq<char>) -> Seq<bool> {
    split_on(v, ',').map_values(|p: Seq<char>| legacy_true(p))
}

/// The default `clean_paths` list.
pub open spec fn default_clean_paths() -> Seq<char> {
    "1,1,0,1,0,1,0,0"@
}

/// Reads a `clean_paths` value, or the default list when there is none.
pub fn parse_clean_paths(value: Option<&str>) -> (r: Vec<bool>)
    ensures
        r@ == clean_paths_of(
            match value {
                Some(v) => v@,
                None => default_clean_paths(),
            },
        ),
{
    let text = match value {
        Some(v) => v,
        None => "1,1,0,1,0,1,0,0",
    };
    let cs = chars_of(text);
    let pieces = split_on_chars(&cs, ',');
    let mut out: Vec<bool> = Vec::new();
    let mut i: usize = 0;
    while i < pieces.len()
        invariant
            i <= pieces.len(),
            seqs_view(pieces@) == split_on(text@, ','),
            out@ =~= seqs_view(pieces@).take(i as int).map_values(|p: Seq<char>| legacy_true(p)),
        decreases pieces.len() - i,
    {
        let s = string_from_chars(&pieces[i]);
        let b = legacy_bool_value(s.as_str());
        out.push(b);
        assert(seqs_view(pieces@).take(i + 1) =~= seqs_view(pieces@).take(i as int).push(
            pieces@[i as int]@,
        ));
        i = i + 1;
    }
    assert(seqs_view(pieces@).take(i as int) =~= seqs_view(pieces@));
    out
}

/// Flag `i` of a `clean_paths` list, or `default` past its end.
pub open spec fn flag_at(paths: Seq<bool>, i: int, default: bool) -> bool {
    if 0 <= i < paths.len() {
        paths[i]
    } else {
        default
    }
}

fn flag(paths: &Vec<bool>, i: usize, default: bool) -> (r: bool)
    ensures
        r == flag_at(paths@, i as int, default),
{
    if i < paths.len() {
        paths[i]
    } else {
        default
    }
}

/// The straight-bit and V-bit selections a `clean_paths` list encodes: the
/// straight bit reads its profile, X, Y and loop flags at positions 0, 1, 2
/// and 6; the V-bit its profile, Y, X and loop flags at 3, 4, 5 and 7.
pub open spec fn selections_of(paths: Seq<bool>) -> (CleanupSelection, CleanupSelection) {
    (
        CleanupSelection {
            profile: flag_at(paths, 0, true),
            x: flag_at(paths, 1, true),
            y: flag_at(paths, 2, false),
            loops: flag_at(paths, 6, false),
        },
        CleanupSelection {
            profile: flag_at(paths, 3, true),
            y: flag_at(paths, 4, false),
            x: flag_at(paths, 5, true),
            loops: flag_at(paths, 7, false),
        },
    )
}

/// Which `clean_paths` positions each cutter reads: the straight bit takes
/// its profile, X, Y and loop passes from positions 0, 1, 2 and 6, the V-bit
/// from 3, 5, 4 and 7; a missing position gives the default, on for profile
/// and X passes and off for Y and loop passes.
pub proof fn law_clean_path_positions(p: Seq<bool>)
    ensures
        ({
            let (straight, vbit) = selections_of(p);
            &&& straight.profile == (p.len() <= 0 || p[0])
            &&& straight.x == (p.len() <= 1 || p[1])
            &&& straight.y == (p.len() > 2 && p[2])
            &&& straight.loops == (p.len() > 6 && p[6])
            &&& vbit.profile == (p.len() <= 3 || p[3])
            &&& vbit.y == (p.len() > 4 && p[4])
            &&& vbit.x == (p.len() <= 5 || p[5])
            &&& vbit.loops == (p.len() > 7 && p[7])
        }),
{
}

/// The straight-bit and V-bit cleanup selections of a job.
pub fn cleanup_selections(settings: &LegacySettings) -> (r: (CleanupSelection, CleanupSelection))
    ensures
        r == selections_of(
            clean_paths_of(
                match last_value(settings@, "clean_paths"@) {
                    Some(v) => v,
                    None => default_clean_paths(),
                },
            ),
        ),
{
    let found = settings.get_last("clean_paths");
    proof {
        assert(opt_str_view(found) == last_value(settings@, "clean_paths"@));
    }
    let paths = parse_clean_paths(found);
    let straight = CleanupSelection {
        profile: flag(&paths, 0, true),
        x: flag(&paths, 1, true),
        y: flag(&paths, 2, false),
        loops: flag(&paths, 6, false),
    };
    let vbit = CleanupSelection {
        profile: flag(&paths, 3, true),
        y: flag(&paths, 4, false),
        x: flag(&paths, 5, true),
        loops: flag(&paths, 7, false),
    };
    (straight, vbit)
}

} // verus!
