//! The records the registry stores.
use vstd::prelude::*;

verus! {

/// A caller-chosen text that identifies one token.
pub type TokenId = String;

/// Descriptive data attached to a token; every field is optional and unchecked.
#[derive(Clone, Debug, PartialEq, Eq)]
pub struct TokenMetadata {
    pub title: Option<String>,
    pub description: Option<String>,
    pub media: Option<String>,
}

/// The authoritative record of one minted token.
#[derive(Clone, Debug, PartialEq, Eq)]
pub struct Token {
    pub token_id: TokenId,
    pub owner_id: String,
    pub metadata: TokenMetadata,
}

/// Describes the collection as a whole; set once when the registry is created.
#[derive(Clone, Debug, PartialEq, Eq)]
pub struct NFTContractMetadata {
    pub spec: String,
    pub name: String,
    pub symbol: String,
    pub icon: Option<String>,
    pub base_uri: Option<String>,
    pub reference: Option<String>,
    pub reference_hash: Option<String>,
}

/// Why a registry operation failed.
#[derive(Clone, Copy, Debug, PartialEq, Eq, Structural)]
pub enum RegistryError {
    /// No record exists for the queried token id or owner.
    NotFound,
    /// A token with this id has already been minted.
    DuplicateMint,
}

pub(crate) fn copy_text(o: &Option<String>) -> (r: Option<String>)
    ensures
        r == *o,
{
    match o {
        Some(s) => Some(s.clone()),
        None => None,
    }
}

impl TokenMetadata {
    pub(crate) fn duplicate(&self) -> (r: TokenMetadata)
        ensures
            r == *self,
    {
        TokenMetadata {
            title: copy_text(&self.title),
            description: copy_text(&self.description),
            media: copy_text(&self.media),
        }
    }
}

impl Token {
    pub(crate) fn duplicate(&self) -> (r: Token)
        ensures
            r == *self,
    {
        Token {
            token_id: self.token_id.clone(),
            owner_id: self.owner_id.clone(),
            metadata: self.metadata.duplicate(),
        }
    }
}

impl NFTContractMetadata {
    pub(crate) fn duplicate(&self) -> (r: NFTContractMetadata)
        ensures
            r == *self,
    {
        NFTContractMetadata {
            spec: self.spec.clone(),
            name: self.name.clone(),
            symbol: self.symbol.clone(),
            icon: copy_text(&self.icon),
            base_uri: copy_text(&self.base_uri),
            reference: copy_text(&self.reference),
            reference_hash: copy_text(&self.reference_hash),
        }
    }
}

} // verus!
