//! The game catalogue and the legacy-container detection rule.

use vstd::prelude::*;
use vstd::string::StrSliceExecFns;

use crate::text::{extension_of, has_extension, has_zip_extension, has_zip_extension_spec, str_eq};

verus! {

/// Static description of one supported game.
#[derive(Debug, Clone)]
pub struct GameConfig {
    pub name: String,
    pub display_name: String,
    pub path: String,
}

/// The catalogue of supported games.
pub struct Games {}

impl Games {
    /// Look a game up by its key; exactly `hk` and `silksong` are known.
    pub fn get_config(game_key: &str) -> (r: Option<GameConfig>)
        ensures
            game_key@ == "hk"@ ==> (r matches Some(c) && c.name@ == "Hollow Knight"@
                && c.display_name@ == "Hollow Knight"@ && c.path@ == "Hollow Knight"@),
            game_key@ == "silksong"@ ==> (r matches Some(c) && c.name@ == "Silksong"@
                && c.display_name@ == "Silksong"@ && c.path@ == "Hollow Knight Silksong"@),
            game_key@ != "hk"@ && game_key@ != "silksong"@ ==> r is None,
    {
        proof {
            reveal_strlit("hk");
            reveal_strlit("silksong");
            assert("hk"@.len() == 2);
            assert("silksong"@.len() == 8);
        }
        if str_eq(game_key, "hk") {
            Some(
                GameConfig {
                    name: "Hollow Knight".to_owned(),
                    display_name: "Hollow Knight".to_owned(),
                    path: "Hollow Knight".to_owned(),
                },
            )
        } else if str_eq(game_key, "silksong") {
            Some(
                GameConfig {
                    name: "Silksong".to_owned(),
                    display_name: "Silksong".to_owned(),
                    path: "Hollow Knight Silksong".to_owned(),
                },
            )
        } else {
            None
        }
    }
}

/// The slot a save file name designates: names of the exact shape
/// `user<d>.dat` with `<d>` between 1 and 4 carry slot `<d>`; every other
/// name carries none.
pub open spec fn save_slot_of(name: Seq<char>) -> Option<u8> {
    if name.len() == 9 && name.subrange(0, 4) == "user"@ && name.subrange(5, 9) == ".dat"@ && 49
        <= name[4] as u32 <= 52 {
        Some((name[4] as u32 - 48) as u8)
    } else {
        None
    }
}

/// Recognize a save file name and extract its slot number.
pub fn parse_save_slot(name: &str) -> (r: Option<u8>)
    ensures
        r == save_slot_of(name@),
{
    proof {
        reveal_strlit("user");
        reveal_strlit(".dat");
    }
    let len = name.unicode_len();
    if len != 9 {
        return None;
    }
    if name.get_char(0) != 'u' || name.get_char(1) != 's' || name.get_char(2) != 'e'
        || name.get_char(3) != 'r' {
        proof {
            if name@.subrange(0, 4) == "user"@ {
                assert(name@.subrange(0, 4)[0] == name@[0]);
                assert(name@.subrange(0, 4)[1] == name@[1]);
                assert(name@.subrange(0, 4)[2] == name@[2]);
                assert(name@.subrange(0, 4)[3] == name@[3]);
            }
        }
        return None;
    }
    if name.get_char(5) != '.' || name.get_char(6) != 'd' || name.get_char(7) != 'a'
        || name.get_char(8) != 't' {
        proof {
            if name@.subrange(5, 9) == ".dat"@ {
                assert(name@.subrange(5, 9)[0] == name@[5]);
                assert(name@.subrange(5, 9)[1] == name@[6]);
                assert(name@.subrange(5, 9)[2] == name@[7]);
                assert(name@.subrange(5, 9)[3] == name@[8]);
            }
        }
        return None;
    }
    let digit = name.get_char(4) as u32;
    if digit < 49 || digit > 52 {
        return None;
    }
    proof {
        assert(name@.subrange(0, 4) =~= "user"@);
        assert(name@.subrange(5, 9) =~= ".dat"@);
    }
    Some((digit - 48) as u8)
}

/// Every character of `s` is an ASCII digit.
pub open spec fn all_ascii_digits(s: Seq<char>) -> bool {
    forall|i: int| 0 <= i < s.len() ==> 48 <= #[trigger] (s[i] as u32) <= 57
}

/// Test whether a directory name is numeric, the shape user-numbered save
/// directories take.
pub fn is_all_ascii_digits(s: &str) -> (r: bool)
    ensures
        r == all_ascii_digits(s@),
{
    let len = s.unicode_len();
    let mut i: usize = 0;
    while i < len
        invariant
            len == s@.len(),
            i <= len,
            forall|j: int| 0 <= j < i ==> 48 <= #[trigger] (s@[j] as u32) <= 57,
        decreases len - i,
    {
        let c = s.get_char(i) as u32;
        if c < 48 || c > 57 {
            return false;
        }
        i = i + 1;
    }
    true
}

/// The legacy-container detection rule: a path is container-style when it
/// has a `zip` extension, is an existing directory, or does not exist yet
/// and has no extension at all.
pub open spec fn is_jksv_format_spec(path: Seq<char>, is_dir: bool, exists: bool) -> bool {
    has_zip_extension_spec(path) || is_dir || (!exists && extension_of(path) is None)
}

/// Apply the legacy-container detection rule to a path. Whether the path is
/// an existing directory, and whether it exists at all, are facts of the
/// filesystem and are passed in; the rule itself is pure.
pub fn is_jksv_format(file_path: &str, is_dir: bool, exists: bool) -> (r: bool)
    ensures
        r == is_jksv_format_spec(file_path@, is_dir, exists),
{
    if has_zip_extension(file_path) {
        true
    } else if is_dir {
        true
    } else {
        !exists && !has_extension(file_path)
    }
}

} // verus!
