//! The sync coordinator's decision core: given the two endpoints' metadata
//! and an optional explicit override, pick the transfer direction and the
//! route (legacy container or encoded file), as one tagged plan per call.
//! The file transfers themselves are the caller's work.

use vstd::prelude::*;
use vstd::string::{StringExecFns, StringSliceAdditionalSpecFns};

use crate::crypto::SaveCrypto;
use crate::errors::SaveError;
use crate::text::{lex_gt, str_eq, str_lex_gt};
use crate::utils::{is_jksv_format, is_jksv_format_spec};

verus! {

/// Metadata for one sync endpoint, computed on demand by the caller:
/// whether the file exists, its modification time as an RFC3339 string,
/// and its size.
#[derive(Debug, Clone)]
pub struct FileInfo {
    pub exists: bool,
    pub modified: Option<String>,
    pub size: u64,
}

/// A transfer direction between the two endpoints.
#[derive(Debug, Clone, Copy, PartialEq, Eq, Structural)]
pub enum SyncDirection {
    PcToSwitch,
    SwitchToPc,
}

/// The caller's explicit wish for the direction; `Auto` lets the endpoint
/// state decide.
#[derive(Debug, Clone, Copy, PartialEq, Eq, Structural)]
pub enum ForcedDirection {
    Auto,
    PcToSwitch,
    SwitchToPc,
}

/// How a chosen transfer is carried out.
#[derive(Debug, Clone, Copy, PartialEq, Eq, Structural)]
pub enum SyncRoute {
    LegacyContainer,
    EncodedFile,
}

/// The outcome of planning one sync call: direction and route, decided
/// once.
#[derive(Debug, Clone, Copy, PartialEq, Eq, Structural)]
pub struct SyncPlan {
    pub direction: SyncDirection,
    pub route: SyncRoute,
}

/// The timestamp bytes a comparison uses: the string's UTF-8 bytes, or
/// empty where there is no timestamp.
pub open spec fn timestamp_bytes(m: Option<Seq<char>>) -> Seq<u8> {
    match m {
        Some(s) => vstd::utf8::encode_utf8(s),
        None => Seq::empty(),
    }
}

/// How an optional direction token parses: absent means `Auto`, and only
/// the two known tokens are accepted; anything else is `InvalidDirection`.
pub open spec fn parse_forced_direction_spec(token: Option<Seq<char>>) -> Result<
    ForcedDirection,
    SaveError,
> {
    match token {
        None => Ok(ForcedDirection::Auto),
        Some(t) => if t == "pc-to-switch"@ {
            Ok(ForcedDirection::PcToSwitch)
        } else if t == "switch-to-pc"@ {
            Ok(ForcedDirection::SwitchToPc)
        } else {
            Err(SaveError::InvalidDirection)
        },
    }
}

/// Turn an optional direction token into the tagged form, so that invalid
/// strings are rejected at the boundary.
pub fn parse_forced_direction(token: &Option<String>) -> (r: Result<ForcedDirection, SaveError>)
    ensures
        r == parse_forced_direction_spec(token.deep_view()),
{
    match token {
        None => Ok(ForcedDirection::Auto),
        Some(t) => if str_eq(t.as_str(), "pc-to-switch") {
            Ok(ForcedDirection::PcToSwitch)
        } else if str_eq(t.as_str(), "switch-to-pc") {
            Ok(ForcedDirection::SwitchToPc)
        } else {
            Err(SaveError::InvalidDirection)
        },
    }
}

/// The direction rule: with neither endpoint present there is nothing to
/// sync; an explicit override wins; otherwise a missing side is the
/// destination, and with both present the lexicographically newer
/// timestamp names the source.
pub open spec fn resolve_direction_spec(
    pc_exists: bool,
    switch_exists: bool,
    pc_stamp: Seq<u8>,
    switch_stamp: Seq<u8>,
    forced: ForcedDirection,
) -> Result<SyncDirection, SaveError> {
    if !pc_exists && !switch_exists {
        Err(SaveError::NoSaveFound)
    } else {
        match forced {
            ForcedDirection::PcToSwitch => Ok(SyncDirection::PcToSwitch),
            ForcedDirection::SwitchToPc => Ok(SyncDirection::SwitchToPc),
            ForcedDirection::Auto => if !pc_exists {
                Ok(SyncDirection::SwitchToPc)
            } else if !switch_exists {
                Ok(SyncDirection::PcToSwitch)
            } else if lex_gt(pc_stamp, switch_stamp) {
                Ok(SyncDirection::PcToSwitch)
            } else {
                Ok(SyncDirection::SwitchToPc)
            },
        }
    }
}

/// Decide the transfer direction from the two endpoints' metadata and an
/// optional override.
pub fn resolve_direction(pc_info: &FileInfo, switch_info: &FileInfo, forced: ForcedDirection) -> (r:
    Result<SyncDirection, SaveError>)
    ensures
        r == resolve_direction_spec(
            pc_info.exists,
            switch_info.exists,
            timestamp_bytes(pc_info.modified.deep_view()),
            timestamp_bytes(switch_info.modified.deep_view()),
            forced,
        ),
{
    if !pc_info.exists && !switch_info.exists {
        return Err(SaveError::NoSaveFound);
    }
    match forced {
        ForcedDirection::PcToSwitch => Ok(SyncDirection::PcToSwitch),
        ForcedDirection::SwitchToPc => Ok(SyncDirection::SwitchToPc),
        ForcedDirection::Auto => {
            if !pc_info.exists {
                Ok(SyncDirection::SwitchToPc)
            } else if !switch_info.exists {
                Ok(SyncDirection::PcToSwitch)
            } else {
                let pc_stamp: &str = match &pc_info.modified {
                    Some(s) => s.as_str(),
                    None => "",
                };
                let switch_stamp: &str = match &switch_info.modified {
                    Some(s) => s.as_str(),
                    None => "",
                };
                proof {
                    reveal_strlit("");
                    assert(""@ =~= Seq::<char>::empty());
                    assert(vstd::utf8::encode_utf8(Seq::<char>::empty()) =~= Seq::<u8>::empty());
                }
                if str_lex_gt(pc_stamp, switch_stamp) {
                    Ok(SyncDirection::PcToSwitch)
                } else {
                    Ok(SyncDirection::SwitchToPc)
                }
            }
        },
    }
}

/// What planning a sync call yields: empty configured paths are rejected
/// first, then the direction rule runs, and the route is the
/// legacy-container rule applied to the switch-side path.
pub open spec fn plan_sync_spec(
    pc_save: Seq<char>,
    switch_save: Seq<char>,
    pc_exists: bool,
    switch_exists: bool,
    pc_stamp: Seq<u8>,
    switch_stamp: Seq<u8>,
    switch_is_dir: bool,
    forced: ForcedDirection,
) -> Result<SyncPlan, SaveError> {
    if pc_save.len() == 0 || switch_save.len() == 0 {
        Err(SaveError::ConfigurationError)
    } else {
        match resolve_direction_spec(pc_exists, switch_exists, pc_stamp, switch_stamp, forced) {
            Err(e) => Err(e),
            Ok(d) => Ok(
                SyncPlan {
                    direction: d,
                    route: if is_jksv_format_spec(switch_save, switch_is_dir, switch_exists) {
                        SyncRoute::LegacyContainer
                    } else {
                        SyncRoute::EncodedFile
                    },
                },
            ),
        }
    }
}

/// The token naming a direction.
pub open spec fn direction_token_spec(d: SyncDirection) -> Seq<char> {
    match d {
        SyncDirection::PcToSwitch => "pc-to-switch"@,
        SyncDirection::SwitchToPc => "switch-to-pc"@,
    }
}

/// The token naming a direction.
pub fn direction_token(d: SyncDirection) -> (r: String)
    ensures
        r@ == direction_token_spec(d),
{
    match d {
        SyncDirection::PcToSwitch => "pc-to-switch".to_owned(),
        SyncDirection::SwitchToPc => "switch-to-pc".to_owned(),
    }
}

/// The status string reported after a completed transfer.
pub fn sync_message(d: SyncDirection) -> (r: String)
    ensures
        r@ == "Sync completed: "@ + direction_token_spec(d),
{
    let msg = String::from_str("Sync completed: ");
    let token = direction_token(d);
    msg.concat(token.as_str())
}

/// The save manager: a stateless transcoding engine plus the sync
/// decision logic. All file access stays with the caller.
pub struct SaveManager {
    crypto: SaveCrypto,
}

impl SaveManager {
    /// A fresh manager around a fresh engine.
    pub fn new() -> (r: Self) {
        SaveManager { crypto: SaveCrypto::new() }
    }

    /// The transcoding engine.
    pub fn crypto(&self) -> &SaveCrypto {
        &self.crypto
    }

    /// Plan one sync call: validate the configured paths, decide the
    /// direction, and pick the route, all in one step.
    pub fn plan_sync(
        &self,
        pc_save: &str,
        switch_save: &str,
        pc_info: &FileInfo,
        switch_info: &FileInfo,
        switch_is_dir: bool,
        forced: ForcedDirection,
    ) -> (r: Result<SyncPlan, SaveError>)
        ensures
            r == plan_sync_spec(
                pc_save@,
                switch_save@,
                pc_info.exists,
                switch_info.exists,
                timestamp_bytes(pc_info.modified.deep_view()),
                timestamp_bytes(switch_info.modified.deep_view()),
                switch_is_dir,
                forced,
            ),
    {
        if pc_save.is_empty() || switch_save.is_empty() {
            return Err(SaveError::ConfigurationError);
        }
        match resolve_direction(pc_info, switch_info, forced) {
            Err(e) => Err(e),
            Ok(d) => Ok(
                SyncPlan {
                    direction: d,
                    route: if is_jksv_format(switch_save, switch_is_dir, switch_info.exists) {
                        SyncRoute::LegacyContainer
                    } else {
                        SyncRoute::EncodedFile
                    },
                },
            ),
        }
    }
}

} // verus!
