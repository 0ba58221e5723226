//! The roles a persistent toolbit can fill, which toolbit kinds fill them,
//! and the settings a toolbit writes for each role.
use vstd::prelude::*;
use crate::text::str_eq;
use crate::settings::{LegacySettings, SettingView, set_or_push_view};

verus! {

/// A cutter slot of an engraving job.
#[derive(Debug, Clone, Copy, PartialEq, Eq)]
pub enum ToolRole {
    Primary,
    Cleanup,
    ProfileEndmill,
    ProfileChamfer,
    VBitCleanup,
}

/// Whether a toolbit of `kind` may fill `role`: V-bits and straight endmills
/// engrave and clean up with a V-bit, straight endmills alone clean up and
/// cut profiles, and V-bits alone chamfer.
pub open spec fn kind_eligible(kind: Seq<char>, role: ToolRole) -> bool {
    match role {
        ToolRole::Primary | ToolRole::VBitCleanup => kind == "v_bit"@ || kind == "straight_endmill"@,
        ToolRole::Cleanup | ToolRole::ProfileEndmill => kind == "straight_endmill"@,
        ToolRole::ProfileChamfer => kind == "v_bit"@,
    }
}

/// Whether a toolbit whose kind is `kind` may fill `role`.
pub fn eligible_for(kind: &str, role: ToolRole) -> (r: bool)
    ensures
        r == kind_eligible(kind@, role),
{
    match role {
        ToolRole::Primary | ToolRole::VBitCleanup => str_eq(kind, "v_bit") || str_eq(
            kind,
            "straight_endmill",
        ),
        ToolRole::Cleanup | ToolRole::ProfileEndmill => str_eq(kind, "straight_endmill"),
        ToolRole::ProfileChamfer => str_eq(kind, "v_bit"),
    }
}

/// The figures of a toolbit as the settings hold them, written out in the
/// active units: its diameter, its angle in degrees, and its feed and plunge
/// rates, the last three when the toolbit has them.
#[derive(Debug, Clone, PartialEq, Eq)]
pub struct ToolbitFigures {
    pub diameter: String,
    pub angle: Option<String>,
    pub feed: Option<String>,
    pub plunge: Option<String>,
}

/// The settings a toolbit of `kind` writes for `role`, in order: the bit
/// shape, diameter and angle of an engraving V-bit or endmill, the cleanup,
/// profile endmill or chamfer figures, then the feed and plunge rates.
pub open spec fn toolbit_updates(
    kind: Seq<char>,
    role: ToolRole,
    diameter: Seq<char>,
    angle: Option<Seq<char>>,
    feed: Option<Seq<char>>,
    plunge: Option<Seq<char>>,
) -> Seq<(Seq<char>, Seq<char>)> {
    let main: Seq<(Seq<char>, Seq<char>)> = match role {
        ToolRole::Primary | ToolRole::VBitCleanup => if kind == "v_bit"@ {
            seq![("bit_shape"@, "VBIT"@), ("v_bit_dia"@, diameter)] + match angle {
                Some(a) => seq![("v_bit_angle"@, a)],
                None => seq![],
            }
        } else if kind == "straight_endmill"@ {
            seq![("bit_shape"@, "ENDMILL"@), ("v_bit_dia"@, diameter)]
        } else {
            seq![]
        },
        ToolRole::Cleanup => seq![("clean_dias"@, diameter)],
        ToolRole::ProfileEndmill => seq![("profile_endmill_dia"@, diameter)],
        ToolRole::ProfileChamfer => seq![
            ("profile_chamfer"@, "1"@),
            (
                "profile_chamfer_angle"@,
                match angle {
                    Some(a) => a,
                    None => "60"@,
                },
            ),
        ],
    };
    main + match feed {
        Some(f) => seq![("FEED"@, f)],
        None => seq![],
    } + match plunge {
        Some(p) => seq![("PLUNGE"@, p)],
        None => seq![],
    }
}

/// The settings after writing each of `updates` in turn, unquoted.
pub open spec fn apply_updates(es: Seq<SettingView>, updates: Seq<(Seq<char>, Seq<char>)>) -> Seq<
    SettingView,
>
    decreases updates.len(),
{
    if updates.len() == 0 {
        es
    } else {
        apply_updates(
            set_or_push_view(es, updates[0].0, updates[0].1, false),
            updates.drop_first(),
        )
    }
}

/// The text of an optional string.
pub open spec fn opt_view(o: Option<String>) -> Option<Seq<char>> {
    match o {
        Some(s) => Some(s@),
        None => None,
    }
}

/// Writes the settings a toolbit of `kind` with `figures` holds for `role`.
pub fn apply_toolbit(settings: &mut LegacySettings, kind: &str, role: ToolRole, figures: &ToolbitFigures)
    ensures
        final(settings)@ == apply_updates(
            old(settings)@,
            toolbit_updates(
                kind@,
                role,
                figures.diameter@,
                opt_view(figures.angle),
                opt_view(figures.feed),
                opt_view(figures.plunge),
            ),
        ),
{
    let ghost ups = toolbit_updates(
        kind@,
        role,
        figures.diameter@,
        opt_view(figures.angle),
        opt_view(figures.feed),
        opt_view(figures.plunge),
    );
    let ghost start = settings@;
    let ghost mut done: Seq<(Seq<char>, Seq<char>)> = seq![];
    match role {
        ToolRole::Primary | ToolRole::VBitCleanup => {
            if str_eq(kind, "v_bit") {
                write_setting(settings, "bit_shape", "VBIT", Ghost(start), Ghost(done));
                proof {
                    done = done.push(("bit_shape"@, "VBIT"@));
                }
                write_setting(settings, "v_bit_dia", figures.diameter.as_str(), Ghost(start), Ghost(done));
                proof {
                    done = done.push(("v_bit_dia"@, figures.diameter@));
                }
                if let Some(a) = &figures.angle {
                    write_setting(settings, "v_bit_angle", a.as_str(), Ghost(start), Ghost(done));
                    proof {
                        done = done.push(("v_bit_angle"@, a@));
                    }
                }
            } else if str_eq(kind, "straight_endmill") {
                write_setting(settings, "bit_shape", "ENDMILL", Ghost(start), Ghost(done));
                proof {
                    done = done.push(("bit_shape"@, "ENDMILL"@));
                }
                write_setting(settings, "v_bit_dia", figures.diameter.as_str(), Ghost(start), Ghost(done));
                proof {
                    done = done.push(("v_bit_dia"@, figures.diameter@));
                }
            }
        },
        ToolRole::Cleanup => {
            write_setting(settings, "clean_dias", figures.diameter.as_str(), Ghost(start), Ghost(done));
            proof {
                done = done.push(("clean_dias"@, figures.diameter@));
            }
        },
        ToolRole::ProfileEndmill => {
            write_setting(settings, "profile_endmill_dia", figures.diameter.as_str(), Ghost(start), Ghost(done));
            proof {
                done = done.push(("profile_endmill_dia"@, figures.diameter@));
            }
        },
        ToolRole::ProfileChamfer => {
            write_setting(settings, "profile_chamfer", "1", Ghost(start), Ghost(done));
            proof {
                done = done.push(("profile_chamfer"@, "1"@));
            }
            let angle: &str = match &figures.angle {
                Some(a) => a.as_str(),
                None => "60",
            };
            write_setting(settings, "profile_chamfer_angle", angle, Ghost(start), Ghost(done));
            proof {
                done = done.push(("profile_chamfer_angle"@, angle@));
            }
        },
    }
    if let Some(f) = &figures.feed {
        write_setting(settings, "FEED", f.as_str(), Ghost(start), Ghost(done));
        proof {
            done = done.push(("FEED"@, f@));
        }
    }
    if let Some(p) = &figures.plunge {
        write_setting(settings, "PLUNGE", p.as_str(), Ghost(start), Ghost(done));
        proof {
            done = done.push(("PLUNGE"@, p@));
        }
    }
    proof {
        assert(done =~= ups);
    }
}

/// Writes one more update after `done`.
fn write_setting(
    settings: &mut LegacySettings,
    key: &str,
    value: &str,
    Ghost(start): Ghost<Seq<SettingView>>,
    Ghost(done): Ghost<Seq<(Seq<char>, Seq<char>)>>,
)
    requires
        old(settings)@ == apply_updates(start, done),
    ensures
        final(settings)@ == apply_updates(start, done.push((key@, value@))),
{
    settings.set_or_push(key, value, false);
    proof {
        lemma_apply_push(start, done, key@, value@);
    }
}

/// Writing one more update after a list writes it to their result.
proof fn lemma_apply_push(
    es: Seq<SettingView>,
    done: Seq<(Seq<char>, Seq<char>)>,
    key: Seq<char>,
    value: Seq<char>,
)
    ensures
        apply_updates(es, done.push((key, value))) == set_or_push_view(
            apply_updates(es, done),
            key,
            value,
            false,
        ),
    decreases done.len(),
{
    let pushed = done.push((key, value));
    if done.len() == 0 {
        assert(pushed.drop_first() =~= Seq::<(Seq<char>, Seq<char>)>::empty());
        assert(pushed[0] == (key, value));
        let es2 = set_or_push_view(es, key, value, false);
        assert(apply_updates(es2, pushed.drop_first()) == es2);
    } else {
        let es2 = set_or_push_view(es, done[0].0, done[0].1, false);
        lemma_apply_push(es2, done.drop_first(), key, value);
        assert(pushed.drop_first() =~= done.drop_first().push((key, value)));
        assert(pushed[0] == done[0]);
    }
}

} // verus!
