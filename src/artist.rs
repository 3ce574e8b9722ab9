use vstd::prelude::*;
use vstd::utf8::encode_utf8;

use crate::constants::{
    ARTIST_METADATA_DESCRIPTION_SIZE, ARTIST_METADATA_NAME_SIZE, ARTIST_METADATA_URI_SIZE,
};

verus! {

/// Errors of the artist and artwork program.
#[derive(Debug, Clone, Copy, PartialEq, Eq, Structural)]
pub enum AllovrError {
    AlreadyMinted,
    InvalidInstruction,
    MissingRequiredSignature,
    InvalidInitialiser,
    InvalidStateAccount,
    NotRentExempt,
    InvalidTokenProgram,
    InvalidAssociatedTokenAccountProgram,
    IncorrectOwner,
    IncorrectTokenOwnerOrMint,
    InvalidPda,
    InvalidProgramId,
    InvalidSystemProgramId,
    InvalidClockSysvarId,
    InvalidArtistTokenAccount,
    InvalidArtworkTokenAccount,
    InvalidAllovrMint,
    InvalidAllovrTreasury,
    InvalidAssociatedTokenAccount,
    InvalidArtworkSymbol,
    ArtworkDescriptionMaxLengthExceeded,
    InvalidArtistName,
    InvalidArtistDescription,
    InvalidArtistSymbol,
    InvalidArtistImageUrl,
    InvalidArtistUri,
    ArtworkUnderOffer,
    IncorrectArtworkBuyer,
    IncorrectPaymentAccount,
    IncorrectArtworkHolder,
    InvalidOffer,
    InflationNotDue,
    IncorrectFounderAddress,
    ManualFail,
}

/// What an artist hands in when registering or updating.
#[derive(Debug)]
pub struct RegisterArtistArgs {
    pub name: String,
    pub description: String,
    pub token_symbol: String,
    pub uri: Option<String>,
    pub create_metaplex_metadata: Option<bool>,
}

/// The artist metadata that is stored on chain.
#[derive(Debug)]
pub struct ArtistMetadata {
    pub name: String,
    pub description: String,
    pub symbol: String,
    pub uri: Option<String>,
}

/// The currencies an artwork can be offered in.
#[derive(Debug, Clone, Copy, PartialEq, Eq, Structural)]
pub enum Currency {
    SOL,
    AOVR,
}

/// `s` without its leading and trailing whitespace, as `str::trim` gives it.
pub uninterp spec fn trimmed(s: Seq<char>) -> Seq<char>;

/// Relies on `str::trim`: the slice of `s` without leading and trailing
/// whitespace, which depends on the characters of `s` alone.
#[verifier::external_body]
fn trim(s: &str) -> (r: &str)
    ensures
        r@ == trimmed(s@),
{
    s.trim()
}

/// Length of the UTF-8 encoding of `s`, in bytes, as `str::len` reports it.
pub open spec fn byte_len(s: Seq<char>) -> int {
    encode_utf8(s).len() as usize as int
}

/// The first length check that already trimmed artist fields fail, if any.
pub open spec fn artist_fields_error(
    name: Seq<char>,
    description: Seq<char>,
    symbol: Seq<char>,
    uri: Option<Seq<char>>,
) -> Option<AllovrError> {
    if byte_len(name) == 0 || byte_len(name) > ARTIST_METADATA_NAME_SIZE {
        Some(AllovrError::InvalidArtistName)
    } else if byte_len(description) == 0 || byte_len(description)
        > ARTIST_METADATA_DESCRIPTION_SIZE {
        Some(AllovrError::InvalidArtistDescription)
    } else if byte_len(symbol) != 3 && byte_len(symbol) != 4 {
        Some(AllovrError::InvalidArtistSymbol)
    } else if uri is Some && byte_len(uri->Some_0) > ARTIST_METADATA_URI_SIZE {
        Some(AllovrError::InvalidArtistUri)
    } else {
        None
    }
}

/// The view of an optional text.
pub open spec fn opt_view(s: Option<String>) -> Option<Seq<char>> {
    match s {
        Some(t) => Some(t@),
        None => None,
    }
}

/// The trimmed view of an optional text.
pub open spec fn opt_trimmed(s: Option<String>) -> Option<Seq<char>> {
    match s {
        Some(t) => Some(trimmed(t@)),
        None => None,
    }
}

/// Checks the lengths in bytes of artist fields that were already trimmed:
/// a name of 1 to 32, a description of 1 to 1000, a token symbol of 3 or 4,
/// and a URI, if any, of at most 200. Returns the fields unchanged.
pub fn check_artist_fields(
    name: String,
    description: String,
    token_symbol: String,
    uri: Option<String>,
    create_metaplex_metadata: Option<bool>,
) -> (r: Result<RegisterArtistArgs, AllovrError>)
    ensures
        r is Err <==> artist_fields_error(name@, description@, token_symbol@, opt_view(uri)) is Some,
        r is Err ==> r->Err_0 == artist_fields_error(
            name@,
            description@,
            token_symbol@,
            opt_view(uri),
        )->Some_0,
        r is Ok ==> r->Ok_0.name@ == name@ && r->Ok_0.description@ == description@
            && r->Ok_0.token_symbol@ == token_symbol@ && opt_view(r->Ok_0.uri) == opt_view(uri)
            && r->Ok_0.create_metaplex_metadata == create_metaplex_metadata,
{
    if name.as_str().len() == 0 || name.as_str().len() > ARTIST_METADATA_NAME_SIZE {
        return Err(AllovrError::InvalidArtistName);
    }
    if description.as_str().len() == 0 || description.as_str().len()
        > ARTIST_METADATA_DESCRIPTION_SIZE {
        return Err(AllovrError::InvalidArtistDescription);
    }
    if token_symbol.as_str().len() != 3 && token_symbol.as_str().len() != 4 {
        return Err(AllovrError::InvalidArtistSymbol);
    }
    match &uri {
        Some(u) => {
            if u.as_str().len() > ARTIST_METADATA_URI_SIZE {
                return Err(AllovrError::InvalidArtistUri);
            }
        },
        None => {},
    }
    Ok(RegisterArtistArgs { name, description, token_symbol, uri, create_metaplex_metadata })
}

/// Trims each text field of the artist data of leading and trailing
/// whitespace, then checks the lengths as `check_artist_fields` does.
pub fn santitise_artist_data(args: RegisterArtistArgs) -> (r: Result<RegisterArtistArgs, AllovrError>)
    ensures
        r is Err <==> artist_fields_error(
            trimmed(args.name@),
            trimmed(args.description@),
            trimmed(args.token_symbol@),
            opt_trimmed(args.uri),
        ) is Some,
        r is Err ==> r->Err_0 == artist_fields_error(
            trimmed(args.name@),
            trimmed(args.description@),
            trimmed(args.token_symbol@),
            opt_trimmed(args.uri),
        )->Some_0,
        r is Ok ==> r->Ok_0.name@ == trimmed(args.name@) && r->Ok_0.description@ == trimmed(
            args.description@,
        ) && r->Ok_0.token_symbol@ == trimmed(args.token_symbol@) && opt_view(r->Ok_0.uri)
            == opt_trimmed(args.uri) && r->Ok_0.create_metaplex_metadata
            == args.create_metaplex_metadata,
{
    let artist_name = trim(args.name.as_str()).to_owned();
    let artist_description = trim(args.description.as_str()).to_owned();
    let artist_token_symbol = trim(args.token_symbol.as_str()).to_owned();
    let artist_uri_option = match &args.uri {
        Some(uri) => Some(trim(uri.as_str()).to_owned()),
        None => None,
    };
    check_artist_fields(
        artist_name,
        artist_description,
        artist_token_symbol,
        artist_uri_option,
        args.create_metaplex_metadata,
    )
}

impl ArtistMetadata {
    /// The metadata stored for checked artist data: name, description,
    /// symbol and URI taken over as they are.
    pub fn from_artist_data(data: RegisterArtistArgs) -> (r: ArtistMetadata)
        ensures
            r.name@ == data.name@,
            r.description@ == data.description@,
            r.symbol@ == data.token_symbol@,
            opt_view(r.uri) == opt_view(data.uri),
    {
        ArtistMetadata {
            name: data.name,
            description: data.description,
            symbol: data.token_symbol,
            uri: data.uri,
        }
    }
}

} // verus!
