//! The error taxonomy of the service.
//!
//! Input rejections (`InvalidModel`, `UnevenTeams`) surface before anything is
//! persisted; not-found conditions map to their own variants; everything the
//! storage layer or a collaborator throws unexpectedly collapses into
//! `Unexpected`.

use vstd::prelude::*;

verus! {

/// Everything a service operation can fail with.
#[derive(Debug, Clone, Copy)]
pub enum AppError {
    Unexpected,
    Unauthorized,
    InternalServerError(&'static str),
    PlayerNotFound,
    PlayerMatchesNotFound,
    PlayerSteamIDInvalid,
    PlayerSteamDoesNotExist,
    MatchNotFound,
    MatchDetailNotFound,
    InvalidModel,
    UnevenTeams,
    AGDBInvalidSteamID,
    AGDBPlayerNotFound,
    AGDBPartialData,
}

/// The result type shared by the service operations.
pub type ServiceResult<T> = Result<T, AppError>;

/// The stable machine-readable code of each error variant.
pub open spec fn spec_code(e: AppError) -> Seq<char> {
    match e {
        AppError::Unexpected => "unexpected"@,
        AppError::Unauthorized => "unauthorized"@,
        AppError::InternalServerError(_) => "internal_server_error"@,
        AppError::PlayerNotFound => "player_not_found"@,
        AppError::PlayerMatchesNotFound => "player_matches_not_found"@,
        AppError::PlayerSteamIDInvalid => "player_steamid_invalid"@,
        AppError::PlayerSteamDoesNotExist => "player_steamid_does_not_exist"@,
        AppError::MatchNotFound => "match_not_found"@,
        AppError::MatchDetailNotFound => "match_detail_not_found"@,
        AppError::InvalidModel => "invalid_model"@,
        AppError::UnevenTeams => "uneven_teams"@,
        AppError::AGDBInvalidSteamID => "agdb_invalid_steamid"@,
        AppError::AGDBPlayerNotFound => "agdb_player_not_found"@,
        AppError::AGDBPartialData => "agdb_partial_data"@,
    }
}

impl AppError {
    /// The machine-readable code, for logs and response bodies.
    pub fn code(&self) -> (r: &'static str)
        ensures
            r@ == spec_code(*self),
    {
        match self {
            AppError::Unexpected => "unexpected",
            AppError::Unauthorized => "unauthorized",
            AppError::InternalServerError(_) => "internal_server_error",
            AppError::PlayerNotFound => "player_not_found",
            AppError::PlayerMatchesNotFound => "player_matches_not_found",
            AppError::PlayerSteamIDInvalid => "player_steamid_invalid",
            AppError::PlayerSteamDoesNotExist => "player_steamid_does_not_exist",
            AppError::MatchNotFound => "match_not_found",
            AppError::MatchDetailNotFound => "match_detail_not_found",
            AppError::InvalidModel => "invalid_model",
            AppError::UnevenTeams => "uneven_teams",
            AppError::AGDBInvalidSteamID => "agdb_invalid_steamid",
            AppError::AGDBPlayerNotFound => "agdb_player_not_found",
            AppError::AGDBPartialData => "agdb_partial_data",
        }
    }

    /// Alias for `code`, kept for callers that read the error as a string.
    pub fn as_str(&self) -> (r: &'static str)
        ensures
            r@ == spec_code(*self),
    {
        self.code()
    }

    /// The human-readable description of each variant.
    pub fn message(&self) -> (r: &'static str) {
        match self {
            AppError::Unexpected => "An unexpected error has occurred.",
            AppError::Unauthorized => "You are not authorized to perform this action.",
            AppError::InternalServerError(_) => "An internal server error has occurred.",
            AppError::PlayerNotFound => "The specified player was not found.",
            AppError::PlayerMatchesNotFound => "No matches found for the specified player.",
            AppError::PlayerSteamIDInvalid => "The provided Steam ID is invalid.",
            AppError::PlayerSteamDoesNotExist => "The provided Steam ID does not exist.",
            AppError::MatchNotFound => "The specified match was not found.",
            AppError::MatchDetailNotFound => "The specified match detail was not found.",
            AppError::InvalidModel => "Invalid model value. Valid values are 'blue' or 'red'.",
            AppError::UnevenTeams => "Team sizes do not match.",
            AppError::AGDBInvalidSteamID => "The provided Steam ID is invalid according to AGDB.",
            AppError::AGDBPlayerNotFound => "No player found in AGDB for the provided Steam ID.",
            AppError::AGDBPartialData => "The provided Steam ID is valid and there is partial data in AGDB, but the API didn't return any data.",
        }
    }

    /// The HTTP status the transport layer should answer with.
    pub fn http_status_code(&self) -> (r: u16)
        ensures
            r == 400 || r == 401 || r == 404 || r == 500,
            (r == 400) == matches!(*self,
                AppError::PlayerSteamIDInvalid
                | AppError::InvalidModel
                | AppError::UnevenTeams
                | AppError::AGDBInvalidSteamID
                | AppError::AGDBPartialData),
            (r == 401) == matches!(*self, AppError::Unauthorized),
            (r == 404) == matches!(*self,
                AppError::PlayerNotFound
                | AppError::PlayerMatchesNotFound
                | AppError::PlayerSteamDoesNotExist
                | AppError::MatchNotFound
                | AppError::MatchDetailNotFound
                | AppError::AGDBPlayerNotFound),
    {
        match self {
            AppError::PlayerSteamIDInvalid
            | AppError::InvalidModel
            | AppError::UnevenTeams
            | AppError::AGDBInvalidSteamID
            | AppError::AGDBPartialData => 400,
            AppError::Unauthorized => 401,
            AppError::PlayerNotFound
            | AppError::PlayerMatchesNotFound
            | AppError::PlayerSteamDoesNotExist
            | AppError::MatchNotFound
            | AppError::MatchDetailNotFound
            | AppError::AGDBPlayerNotFound => 404,
            AppError::Unexpected | AppError::InternalServerError(_) => 500,
        }
    }

    /// The status code and body the transport layer serializes on failure.
    pub fn response_parts(&self) -> (r: (u16, ErrorResponse))
        ensures
            r.0 == 400 || r.0 == 401 || r.0 == 404 || r.0 == 500,
            r.1.code@ == spec_code(*self),
    {
        let status = self.http_status_code();
        let response = ErrorResponse { code: self.code(), message: self.message() };
        (status, response)
    }
}

/// The body sent back for a failed request.
pub struct ErrorResponse {
    pub code: &'static str,
    pub message: &'static str,
}

} // verus!
