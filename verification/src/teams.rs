//! Accepts or rejects a proposed batch of per-player match records.
//!
//! A batch is acceptable when every record's team label normalizes,
//! case-insensitively, to `blue` or `red`, and both teams end up the same
//! size.  Validation has no side effects and must pass before any record of
//! the batch is persisted.

use vstd::prelude::*;
use crate::error::AppError;
use crate::error::ServiceResult;

verus! {

/// One of the two sides of a match.  The persisted, lowercase label of
/// `Blue` is `"blue"`, of `Red` `"red"`.
#[derive(Debug, Clone, Copy, PartialEq, Eq, Structural)]
pub enum Team {
    Blue,
    Red,
}

impl Team {
    /// The lowercase label this side is persisted under.
    pub fn label(self) -> (r: &'static str)
        ensures
            self == Team::Blue ==> r@ == "blue"@,
            self == Team::Red ==> r@ == "red"@,
    {
        match self {
            Team::Blue => "blue",
            Team::Red => "red",
        }
    }
}

/// ASCII lowercasing of a single character; everything outside `A`..`Z` is
/// left alone.
pub open spec fn lower_char(c: char) -> char {
    if 65 <= c as u32 && c as u32 <= 90 {
        (((c as u32) + 32) as u8) as char
    } else {
        c
    }
}

/// ASCII lowercasing of a whole label.
pub open spec fn lower(s: Seq<char>) -> Seq<char> {
    s.map_values(|c: char| lower_char(c))
}

/// The team a label names, if any: the label must lowercase to exactly
/// `blue` or `red`.
pub open spec fn spec_team_of_label(s: Seq<char>) -> Option<Team> {
    if lower(s) == "blue"@ {
        Some(Team::Blue)
    } else if lower(s) == "red"@ {
        Some(Team::Red)
    } else {
        None
    }
}

/// Lowercases one character.
fn to_lower_char(c: char) -> (r: char)
    ensures
        r == lower_char(c),
{
    let u = c as u32;
    if 65 <= u && u <= 90 {
        ((u + 32) as u8) as char
    } else {
        c
    }
}

/// Normalizes a team label: `Some` side for a case-insensitive spelling of
/// `blue` or `red`, `None` for everything else.
pub fn parse_team_label(s: &str) -> (r: Option<Team>)
    ensures
        r == spec_team_of_label(s@),
{
    proof {
        reveal_strlit("blue");
        reveal_strlit("red");
    }
    let n = s.unicode_len();
    if n == 4 {
        let c0 = to_lower_char(s.get_char(0));
        let c1 = to_lower_char(s.get_char(1));
        let c2 = to_lower_char(s.get_char(2));
        let c3 = to_lower_char(s.get_char(3));
        proof {
            assert(lower(s@)[0] == lower_char(s@[0]));
            assert(lower(s@)[1] == lower_char(s@[1]));
            assert(lower(s@)[2] == lower_char(s@[2]));
            assert(lower(s@)[3] == lower_char(s@[3]));
        }
        let ok = c0 == 'b' && c1 == 'l' && c2 == 'u' && c3 == 'e';
        if ok {
            proof {
                assert(lower(s@) =~= "blue"@);
            }
            Some(Team::Blue)
        } else {
            proof {
                assert(lower(s@) != "blue"@);
                assert(lower(s@).len() != "red"@.len());
            }
            None
        }
    } else if n == 3 {
        let c0 = to_lower_char(s.get_char(0));
        let c1 = to_lower_char(s.get_char(1));
        let c2 = to_lower_char(s.get_char(2));
        proof {
            assert(lower(s@)[0] == lower_char(s@[0]));
            assert(lower(s@)[1] == lower_char(s@[1]));
            assert(lower(s@)[2] == lower_char(s@[2]));
        }
        let ok = c0 == 'r' && c1 == 'e' && c2 == 'd';
        if ok {
            proof {
                assert(lower(s@) =~= "red"@);
            }
            Some(Team::Red)
        } else {
            proof {
                assert(lower(s@) != "red"@);
                assert(lower(s@).len() != "blue"@.len());
            }
            None
        }
    } else {
        proof {
            assert(lower(s@).len() == s@.len());
        }
        None
    }
}

/// One proposed per-player record of a match, as the ingestion interface
/// hands it over, before anything is persisted.
#[derive(Debug, Clone)]
pub struct RequestBody {
    pub steam_id: String,
    pub match_id: u64,
    pub frags: i16,
    pub deaths: i16,
    pub average_ping: u16,
    pub damage_dealt: u16,
    pub damage_taken: u16,
    pub model: String,
}

/// The team a proposed record names, if its label is recognizable.
pub open spec fn team_of(rb: RequestBody) -> Option<Team> {
    spec_team_of_label(rb.model@)
}

/// Whether every record of the batch carries a recognizable team label.
pub open spec fn all_labels_valid(s: Seq<RequestBody>) -> bool {
    forall|i: int| 0 <= i < s.len() ==> #[trigger] team_of(s[i]) is Some
}

/// How many records of the batch belong to the given team.
pub open spec fn count_team(s: Seq<RequestBody>, t: Team) -> int
    decreases s.len(),
{
    if s.len() == 0 {
        0
    } else {
        count_team(s.drop_last(), t) + if team_of(s.last()) == Some(t) {
            1int
        } else {
            0int
        }
    }
}

/// Accepts the batch exactly when every team label normalizes to `blue` or
/// `red` and both teams have the same size; rejects an unrecognizable label
/// with `InvalidModel` and a size mismatch with `UnevenTeams`.  No side
/// effects.
pub fn validate_teams(details: &Vec<RequestBody>) -> (r: ServiceResult<()>)
    ensures
        r is Ok <==> (all_labels_valid(details@) && count_team(details@, Team::Blue)
            == count_team(details@, Team::Red)),
        r == Err::<(), AppError>(AppError::InvalidModel) <==> !all_labels_valid(details@),
        r == Err::<(), AppError>(AppError::UnevenTeams) <==> (all_labels_valid(details@)
            && count_team(details@, Team::Blue) != count_team(details@, Team::Red)),
{
    let mut blue_team_size: usize = 0;
    let mut red_team_size: usize = 0;
    let mut i: usize = 0;
    while i < details.len()
        invariant
            i <= details@.len(),
            all_labels_valid(details@.subrange(0, i as int)),
            blue_team_size == count_team(details@.subrange(0, i as int), Team::Blue),
            red_team_size == count_team(details@.subrange(0, i as int), Team::Red),
            blue_team_size <= i,
            red_team_size <= i,
        decreases details@.len() - i,
    {
        proof {
            assert(details@.subrange(0, i + 1).drop_last() =~= details@.subrange(0, i as int));
            assert(details@.subrange(0, i + 1).last() == details@[i as int]);
        }
        match parse_team_label(details[i].model.as_str()) {
            Some(Team::Blue) => {
                blue_team_size = blue_team_size + 1;
            },
            Some(Team::Red) => {
                red_team_size = red_team_size + 1;
            },
            None => {
                assert(!all_labels_valid(details@)) by {
                    assert(team_of(details@[i as int]) is None);
                }
                return Err(AppError::InvalidModel);
            },
        }
        i = i + 1;
    }
    proof {
        assert(details@.subrange(0, details@.len() as int) =~= details@);
    }
    if blue_team_size != red_team_size {
        return Err(AppError::UnevenTeams);
    }
    Ok(())
}

} // verus!
