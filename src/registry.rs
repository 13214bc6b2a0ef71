//! The token registry: a primary index from token id to token, a metadata
//! index from token id to metadata, and an owner index from account to the
//! ids it holds. Every mutation keeps the three in agreement.
use vstd::prelude::*;
use crate::assoc::{keys_unique, lemma_lookup_at, lemma_lookup_key, lemma_lookup_none, lemma_lookup_push, lemma_lookup_update, lookup};
use crate::types::{NFTContractMetadata, RegistryError, Token, TokenId, TokenMetadata};

verus! {

/// Key of the primary index: the token's own id.
pub open spec fn by_token_id() -> spec_fn(Token) -> Seq<char> {
    |t: Token| t.token_id@
}

/// Key of the metadata and owner indexes: the first component of an entry.
pub open spec fn by_first<V>() -> spec_fn((String, V)) -> Seq<char> {
    |e: (String, V)| e.0@
}

/// The texts of a list of ids.
pub open spec fn ids_view(ids: Seq<TokenId>) -> Seq<Seq<char>> {
    ids.map_values(|s: TokenId| s@)
}

/// The registry. Its state is explicit: every operation takes it as receiver.
pub struct Contract {
    owner_id: String,
    tokens_per_owner: Vec<(String, Vec<TokenId>)>,
    token_by_id: Vec<Token>,
    token_metadata_by_id: Vec<(TokenId, TokenMetadata)>,
    metadata: Option<NFTContractMetadata>,
}

impl Contract {
    /// The token minted under `id`, if any.
    pub closed spec fn token(&self, id: Seq<char>) -> Option<Token> {
        lookup(self.token_by_id@, by_token_id(), id)
    }

    /// The metadata stored under `id`, if any.
    pub closed spec fn token_metadata(&self, id: Seq<char>) -> Option<TokenMetadata> {
        match lookup(self.token_metadata_by_id@, by_first::<TokenMetadata>(), id) {
            Some(e) => Some(e.1),
            None => None,
        }
    }

    /// The ids held by `owner`, or `None` when `owner` has no owner-index entry.
    pub closed spec fn owned_ids(&self, owner: Seq<char>) -> Option<Seq<Seq<char>>> {
        match lookup(self.tokens_per_owner@, by_first::<Vec<TokenId>>(), owner) {
            Some(e) => Some(ids_view(e.1@)),
            None => None,
        }
    }

    /// The ids held by `owner`, empty when it has no entry.
    pub open spec fn owned_or_empty(&self, owner: Seq<char>) -> Seq<Seq<char>> {
        match self.owned_ids(owner) {
            Some(ids) => ids,
            None => Seq::empty(),
        }
    }

    /// `id` is listed under `owner` in the owner index.
    pub open spec fn listed(&self, owner: Seq<char>, id: Seq<char>) -> bool {
        self.owned_or_empty(owner).contains(id)
    }

    /// The account that created the registry.
    pub closed spec fn creator(&self) -> Seq<char> {
        self.owner_id@
    }

    /// The descriptor of the collection.
    pub closed spec fn contract_metadata(&self) -> Option<NFTContractMetadata> {
        self.metadata
    }

    /// The indexes agree: keys are unique, the metadata index mirrors the
    /// primary index, every listed id is a token of that owner, every token
    /// is listed under its owner, and owner entries are non-empty sets.
    pub closed spec fn wf(&self) -> bool {
        &&& keys_unique(self.token_by_id@, by_token_id())
        &&& keys_unique(self.tokens_per_owner@, by_first::<Vec<TokenId>>())
        &&& self.token_metadata_by_id@.len() == self.token_by_id@.len()
        &&& forall|i: int|
            0 <= i < self.token_by_id@.len() ==> {
                &&& (#[trigger] self.token_metadata_by_id@[i]).0@ == self.token_by_id@[i].token_id@
                &&& self.token_metadata_by_id@[i].1 == self.token_by_id@[i].metadata
            }
        &&& forall|o: Seq<char>, k: Seq<char>|
            #[trigger] self.listed(o, k) ==> self.token(k) is Some && self.token(k)->Some_0.owner_id@ == o
        &&& forall|k: Seq<char>|
            #[trigger] self.token(k) is Some ==> self.listed(self.token(k)->Some_0.owner_id@, k)
        &&& forall|o: Seq<char>|
            #[trigger] self.owned_ids(o) is Some ==> self.owned_ids(o)->Some_0.no_duplicates()
                && self.owned_ids(o)->Some_0.len() > 0
    }
}

/// What `get_token_by_id` returns for `id`.
pub open spec fn token_result(c: Contract, id: Seq<char>) -> Result<Token, RegistryError> {
    match c.token(id) {
        Some(t) => Ok(t),
        None => Err(RegistryError::NotFound),
    }
}

/// What `get_token_metadata_by_id` returns for `id`.
pub open spec fn metadata_result(c: Contract, id: Seq<char>) -> Result<TokenMetadata, RegistryError> {
    match c.token_metadata(id) {
        Some(m) => Ok(m),
        None => Err(RegistryError::NotFound),
    }
}

/// `r` is what `get_tokens_per_owner` may return for `owner`: `NotFound` when
/// the owner has no entry, else the tokens of its ids, in the entry's order.
pub open spec fn owner_tokens_result(c: Contract, owner: Seq<char>, r: Result<Seq<Token>, RegistryError>) -> bool {
    match c.owned_ids(owner) {
        None => r == Err::<Seq<Token>, RegistryError>(RegistryError::NotFound),
        Some(ids) => match r {
            Ok(v) => v.len() == ids.len() && forall|j: int| 0 <= j < ids.len() ==> Some(#[trigger] v[j]) == c.token(ids[j]),
            Err(_) => false,
        },
    }
}

/// The view of a `get_tokens_per_owner` result.
pub open spec fn tokens_view(r: Result<Vec<Token>, RegistryError>) -> Result<Seq<Token>, RegistryError> {
    match r {
        Ok(v) => Ok(v@),
        Err(e) => Err(e),
    }
}

impl Contract {
    fn find_token(&self, id: &TokenId) -> (r: Option<usize>)
        ensures
            match r {
                Some(i) => i < self.token_by_id@.len() && self.token_by_id@[i as int].token_id@ == id@,
                None => forall|i: int| 0 <= i < self.token_by_id@.len() ==> self.token_by_id@[i].token_id@ != id@,
            },
    {
        let mut i: usize = 0;
        while i < self.token_by_id.len()
            invariant
                i <= self.token_by_id@.len(),
                forall|m: int| 0 <= m < i ==> self.token_by_id@[m].token_id@ != id@,
            decreases self.token_by_id@.len() - i,
        {
            if self.token_by_id[i].token_id == *id {
                return Some(i);
            }
            i = i + 1;
        }
        None
    }

    fn find_metadata(&self, id: &TokenId) -> (r: Option<usize>)
        ensures
            match r {
                Some(i) => i < self.token_metadata_by_id@.len() && self.token_metadata_by_id@[i as int].0@ == id@,
                None => forall|i: int| 0 <= i < self.token_metadata_by_id@.len() ==> self.token_metadata_by_id@[i].0@ != id@,
            },
    {
        let mut i: usize = 0;
        while i < self.token_metadata_by_id.len()
            invariant
                i <= self.token_metadata_by_id@.len(),
                forall|m: int| 0 <= m < i ==> self.token_metadata_by_id@[m].0@ != id@,
            decreases self.token_metadata_by_id@.len() - i,
        {
            if self.token_metadata_by_id[i].0 == *id {
                return Some(i);
            }
            i = i + 1;
        }
        None
    }

    fn find_owner(&self, owner: &String) -> (r: Option<usize>)
        ensures
            match r {
                Some(i) => i < self.tokens_per_owner@.len() && self.tokens_per_owner@[i as int].0@ == owner@,
                None => forall|i: int| 0 <= i < self.tokens_per_owner@.len() ==> self.tokens_per_owner@[i].0@ != owner@,
            },
    {
        let mut i: usize = 0;
        while i < self.tokens_per_owner.len()
            invariant
                i <= self.tokens_per_owner@.len(),
                forall|m: int| 0 <= m < i ==> self.tokens_per_owner@[m].0@ != owner@,
            decreases self.tokens_per_owner@.len() - i,
        {
            if self.tokens_per_owner[i].0 == *owner {
                return Some(i);
            }
            i = i + 1;
        }
        None
    }

    /// An empty registry created by `owner_id`, described as the collection
    /// "Blockchain Bootcamp Contract" with symbol "BBC".
    pub fn new(owner_id: String) -> (r: Contract)
        ensures
            r.wf(),
            r.creator() == owner_id@,
            forall|k: Seq<char>| r.token(k) is None,
            forall|k: Seq<char>| r.token_metadata(k) is None,
            forall|o: Seq<char>| r.owned_ids(o) is None,
            r.contract_metadata() is Some,
            r.contract_metadata()->Some_0.spec@ == "nft-1.0.0"@,
            r.contract_metadata()->Some_0.name@ == "Blockchain Bootcamp Contract"@,
            r.contract_metadata()->Some_0.symbol@ == "BBC"@,
            r.contract_metadata()->Some_0.icon is None,
            r.contract_metadata()->Some_0.base_uri is None,
            r.contract_metadata()->Some_0.reference is None,
            r.contract_metadata()->Some_0.reference_hash is None,
    {
        let metadata = NFTContractMetadata {
            spec: "nft-1.0.0".to_owned(),
            name: "Blockchain Bootcamp Contract".to_owned(),
            symbol: "BBC".to_owned(),
            icon: None,
            base_uri: None,
            reference: None,
            reference_hash: None,
        };
        Contract {
            owner_id,
            tokens_per_owner: Vec::new(),
            token_by_id: Vec::new(),
            token_metadata_by_id: Vec::new(),
            metadata: Some(metadata),
        }
    }

    /// The account that created the registry.
    pub fn owner_id(&self) -> (r: &String)
        ensures
            r@ == self.creator(),
    {
        &self.owner_id
    }

    /// The descriptor of the collection.
    pub fn nft_metadata(&self) -> (r: Option<NFTContractMetadata>)
        ensures
            r == self.contract_metadata(),
    {
        match &self.metadata {
            Some(m) => Some(m.duplicate()),
            None => None,
        }
    }

    /// The token minted under `token_id`; `NotFound` when there is none.
    pub fn get_token_by_id(&self, token_id: TokenId) -> (r: Result<Token, RegistryError>)
        requires
            self.wf(),
        ensures
            r == token_result(*self, token_id@),
    {
        match self.find_token(&token_id) {
            Some(i) => {
                proof {
                    lemma_lookup_at(self.token_by_id@, by_token_id(), i as int);
                }
                Ok(self.token_by_id[i].duplicate())
            },
            None => {
                proof {
                    lemma_lookup_none(self.token_by_id@, by_token_id(), token_id@);
                }
                Err(RegistryError::NotFound)
            },
        }
    }

    proof fn lemma_metadata_mirrors(&self)
        requires
            self.wf(),
        ensures
            keys_unique(self.token_metadata_by_id@, by_first::<TokenMetadata>()),
            forall|k: Seq<char>|
                #[trigger] self.token_metadata(k) == match self.token(k) {
                    Some(t) => Some(t.metadata),
                    None => None::<TokenMetadata>,
                },
    {
        let meta = self.token_metadata_by_id@;
        let toks = self.token_by_id@;
        assert forall|i: int, j: int| 0 <= i < j < meta.len() implies by_first::<TokenMetadata>()(meta[i])
            != by_first::<TokenMetadata>()(meta[j]) by {
            assert(meta[i].0@ == toks[i].token_id@);
            assert(meta[j].0@ == toks[j].token_id@);
        }
        assert forall|k: Seq<char>|
            #[trigger] self.token_metadata(k) == match self.token(k) {
                Some(t) => Some(t.metadata),
                None => None::<TokenMetadata>,
            } by {
            lemma_lookup_none(meta, by_first::<TokenMetadata>(), k);
            lemma_lookup_none(toks, by_token_id(), k);
            if self.token(k) is Some {
                let i = choose|i: int| 0 <= i < toks.len() && by_token_id()(toks[i]) == k;
                assert(meta[i].0@ == toks[i].token_id@);
                lemma_lookup_at(toks, by_token_id(), i);
                lemma_lookup_at(meta, by_first::<TokenMetadata>(), i);
            } else {
                assert forall|i: int| 0 <= i < meta.len() implies by_first::<TokenMetadata>()(meta[i]) != k by {
                    assert(meta[i].0@ == toks[i].token_id@);
                }
            }
        }
    }

    /// The metadata stored under `token_id`; `NotFound` when there is none.
    pub fn get_token_metadata_by_id(&self, token_id: TokenId) -> (r: Result<TokenMetadata, RegistryError>)
        requires
            self.wf(),
        ensures
            r == metadata_result(*self, token_id@),
    {
        proof {
            self.lemma_metadata_mirrors();
        }
        match self.find_metadata(&token_id) {
            Some(i) => {
                proof {
                    lemma_lookup_at(self.token_metadata_by_id@, by_first::<TokenMetadata>(), i as int);
                }
                Ok(self.token_metadata_by_id[i].1.duplicate())
            },
            None => {
                proof {
                    lemma_lookup_none(self.token_metadata_by_id@, by_first::<TokenMetadata>(), token_id@);
                }
                Err(RegistryError::NotFound)
            },
        }
    }

    /// Every token listed under `owner_id`, one per listed id; `NotFound` when
    /// the account has never minted.
    pub fn get_tokens_per_owner(&self, owner_id: String) -> (r: Result<Vec<Token>, RegistryError>)
        requires
            self.wf(),
        ensures
            owner_tokens_result(*self, owner_id@, tokens_view(r)),
    {
        match self.find_owner(&owner_id) {
            None => {
                proof {
                    lemma_lookup_none(self.tokens_per_owner@, by_first::<Vec<TokenId>>(), owner_id@);
                }
                Err(RegistryError::NotFound)
            },
            Some(p) => {
                proof {
                    lemma_lookup_at(self.tokens_per_owner@, by_first::<Vec<TokenId>>(), p as int);
                }
                let token_ids = &self.tokens_per_owner[p].1;
                let ghost ids = ids_view(token_ids@);
                assert(self.owned_ids(owner_id@) == Some(ids));
                let mut token_vec: Vec<Token> = Vec::new();
                let mut j: usize = 0;
                while j < token_ids.len()
                    invariant
                        self.wf(),
                        ids == ids_view(token_ids@),
                        self.owned_ids(owner_id@) == Some(ids),
                        j <= token_ids@.len(),
                        token_vec@.len() == j,
                        forall|m: int| 0 <= m < j ==> Some(#[trigger] token_vec@[m]) == self.token(ids[m]),
                    decreases token_ids@.len() - j,
                {
                    assert(self.owned_or_empty(owner_id@)[j as int] == token_ids@[j as int]@);
                    assert(self.listed(owner_id@, token_ids@[j as int]@));
                    match self.get_token_by_id(token_ids[j].clone()) {
                        Ok(t) => {
                            token_vec.push(t);
                        },
                        Err(_) => {},
                    }
                    j = j + 1;
                }
                Ok(token_vec)
            },
        }
    }

    /// `after` is `before` with token `t` minted by `t.owner_id`: `t` is
    /// stored under its id in the primary and metadata indexes, its id is
    /// appended to its owner's entry (created if absent), and nothing else
    /// changes.
    pub open spec fn minted(before: Contract, after: Contract, t: Token) -> bool {
        &&& after.wf()
        &&& after.creator() == before.creator()
        &&& after.contract_metadata() == before.contract_metadata()
        &&& forall|k: Seq<char>|
            #[trigger] after.token(k) == if k == t.token_id@ {
                Some(t)
            } else {
                before.token(k)
            }
        &&& forall|k: Seq<char>|
            #[trigger] after.token_metadata(k) == if k == t.token_id@ {
                Some(t.metadata)
            } else {
                before.token_metadata(k)
            }
        &&& forall|o: Seq<char>|
            #[trigger] after.owned_ids(o) == if o == t.owner_id@ {
                Some(before.owned_or_empty(o).push(t.token_id@))
            } else {
                before.owned_ids(o)
            }
    }

    /// Mints `token_id` for the account `signer_id`. A token id that is
    /// already minted is refused with `DuplicateMint`, leaving the registry
    /// unchanged; otherwise the token is recorded in all three indexes.
    pub fn mint(
        &mut self,
        signer_id: String,
        token_id: TokenId,
        title: Option<String>,
        description: Option<String>,
        media: Option<String>,
    ) -> (r: Result<(), RegistryError>)
        requires
            old(self).wf(),
        ensures
            final(self).wf(),
            old(self).token(token_id@) is Some ==> r == Err::<(), RegistryError>(RegistryError::DuplicateMint)
                && *final(self) == *old(self),
            old(self).token(token_id@) is None ==> r == Ok::<(), RegistryError>(())
                && Contract::minted(
                *old(self),
                *final(self),
                (Token {
                    token_id,
                    owner_id: signer_id,
                    metadata: TokenMetadata { title, description, media },
                }),
            ),
    {
        if self.find_token(&token_id).is_some() {
            proof {
                let i = choose|i: int| 0 <= i < self.token_by_id@.len() && self.token_by_id@[i].token_id@ == token_id@;
                lemma_lookup_at(self.token_by_id@, by_token_id(), i);
            }
            return Err(RegistryError::DuplicateMint);
        }
        proof {
            lemma_lookup_none(self.token_by_id@, by_token_id(), token_id@);
        }
        let ghost before = *self;
        let token_metadata = TokenMetadata { title, description, media };
        self.token_metadata_by_id.push((token_id.clone(), token_metadata.duplicate()));
        let token = Token { token_id: token_id.clone(), owner_id: signer_id.clone(), metadata: token_metadata };
        let ghost t = token;
        self.token_by_id.push(token);
        match self.find_owner(&signer_id) {
            Some(p) => {
                let ghost entry = self.tokens_per_owner@[p as int];
                proof {
                    lemma_lookup_at(self.tokens_per_owner@, by_first::<Vec<TokenId>>(), p as int);
                }
                let (owner, mut ids) = self.tokens_per_owner.remove(p);
                ids.push(token_id);
                self.tokens_per_owner.insert(p, (owner, ids));
                proof {
                    let e = self.tokens_per_owner@[p as int];
                    assert(self.tokens_per_owner@ =~= before.tokens_per_owner@.update(p as int, e));
                    assert(ids_view(e.1@) =~= ids_view(entry.1@).push(t.token_id@));
                    assert forall|o: Seq<char>|
                        #[trigger] self.owned_ids(o) == if o == t.owner_id@ {
                            Some(before.owned_or_empty(o).push(t.token_id@))
                        } else {
                            before.owned_ids(o)
                        } by {
                        lemma_lookup_update(before.tokens_per_owner@, by_first::<Vec<TokenId>>(), p as int, e, o);
                    }
                    lemma_lookup_update(before.tokens_per_owner@, by_first::<Vec<TokenId>>(), p as int, e, t.owner_id@);
                }
            },
            None => {
                let mut ids: Vec<TokenId> = Vec::new();
                ids.push(token_id);
                let ghost o_before = self.tokens_per_owner@;
                self.tokens_per_owner.push((signer_id, ids));
                proof {
                    let e = self.tokens_per_owner@.last();
                    assert(self.tokens_per_owner@ == o_before.push(e));
                    lemma_lookup_none(o_before, by_first::<Vec<TokenId>>(), t.owner_id@);
                    assert(ids_view(e.1@) =~= Seq::<Seq<char>>::empty().push(t.token_id@));
                    assert forall|o: Seq<char>|
                        #[trigger] self.owned_ids(o) == if o == t.owner_id@ {
                            Some(before.owned_or_empty(o).push(t.token_id@))
                        } else {
                            before.owned_ids(o)
                        } by {
                        lemma_lookup_push(o_before, by_first::<Vec<TokenId>>(), e, o);
                    }
                    assert forall|i: int, j: int| 0 <= i < j < self.tokens_per_owner@.len() implies
                        by_first::<Vec<TokenId>>()(self.tokens_per_owner@[i])
                            != by_first::<Vec<TokenId>>()(self.tokens_per_owner@[j]) by {
                        if j == self.tokens_per_owner@.len() - 1 {
                            assert(self.tokens_per_owner@[i] == o_before[i]);
                        } else {
                            assert(self.tokens_per_owner@[i] == o_before[i]);
                            assert(self.tokens_per_owner@[j] == o_before[j]);
                        }
                    }
                }
            },
        }
        proof {
            assert(self.token_metadata_by_id@.drop_last() =~= before.token_metadata_by_id@);
            self.lemma_mint_keeps_wf(before, t);
        }
        Ok(())
    }

    proof fn lemma_mint_keeps_wf(&self, before: Contract, t: Token)
        requires
            before.wf(),
            before.token(t.token_id@) is None,
            forall|i: int| 0 <= i < before.token_by_id@.len() ==> before.token_by_id@[i].token_id@ != t.token_id@,
            self.token_by_id@ == before.token_by_id@.push(t),
            self.token_metadata_by_id@.len() == self.token_by_id@.len(),
            self.token_metadata_by_id@.drop_last() == before.token_metadata_by_id@,
            self.token_metadata_by_id@.last().0@ == t.token_id@,
            self.token_metadata_by_id@.last().1 == t.metadata,
            keys_unique(self.tokens_per_owner@, by_first::<Vec<TokenId>>()),
            self.owner_id == before.owner_id,
            self.metadata == before.metadata,
            forall|o: Seq<char>|
                #[trigger] self.owned_ids(o) == if o == t.owner_id@ {
                    Some(before.owned_or_empty(o).push(t.token_id@))
                } else {
                    before.owned_ids(o)
                },
        ensures
            Contract::minted(before, *self, t),
    {
        let id = t.token_id@;
        let w = t.owner_id@;
        let toks = self.token_by_id@;
        let meta = self.token_metadata_by_id@;
        assert(meta =~= before.token_metadata_by_id@.push(meta.last()));
        assert forall|i: int, j: int| 0 <= i < j < toks.len() implies by_token_id()(toks[i]) != by_token_id()(toks[j]) by {
            if j < toks.len() - 1 {
                assert(toks[i] == before.token_by_id@[i]);
                assert(toks[j] == before.token_by_id@[j]);
            } else {
                assert(toks[i] == before.token_by_id@[i]);
            }
        }
        assert forall|i: int| 0 <= i < toks.len() implies {
            &&& (#[trigger] meta[i]).0@ == toks[i].token_id@
            &&& meta[i].1 == toks[i].metadata
        } by {
            if i < toks.len() - 1 {
                assert(meta[i] == before.token_metadata_by_id@[i]);
                assert(toks[i] == before.token_by_id@[i]);
            }
        }
        assert forall|k: Seq<char>| #[trigger] self.token(k) == if k == id { Some(t) } else { before.token(k) } by {
            lemma_lookup_push(before.token_by_id@, by_token_id(), t, k);
        }
        assert forall|k: Seq<char>|
            #[trigger] self.token_metadata(k) == if k == id { Some(t.metadata) } else { before.token_metadata(k) } by {
            lemma_lookup_push(before.token_metadata_by_id@, by_first::<TokenMetadata>(), meta.last(), k);
        }
        // The new id is listed nowhere before the call.
        assert forall|o: Seq<char>| !before.listed(o, id) by {
            if before.listed(o, id) {
                assert(before.token(id) is Some);
            }
        }
        assert forall|o: Seq<char>, k: Seq<char>| #[trigger] self.listed(o, k)
            implies self.token(k) is Some && self.token(k)->Some_0.owner_id@ == o by {
            if o == w {
                let s = before.owned_or_empty(o);
                let j = choose|j: int| 0 <= j < s.push(id).len() && s.push(id)[j] == k;
                if j < s.len() {
                    assert(s[j] == k);
                    assert(before.listed(o, k));
                    assert(k != id);
                }
            } else {
                assert(before.listed(o, k));
                assert(k != id);
            }
        }
        assert forall|k: Seq<char>| #[trigger] self.token(k) is Some
            implies self.listed(self.token(k)->Some_0.owner_id@, k) by {
            if k == id {
                let s = before.owned_or_empty(w);
                assert(s.push(id)[s.len() as int] == id);
            } else {
                let o = before.token(k)->Some_0.owner_id@;
                assert(before.listed(o, k));
                if o == w {
                    let s = before.owned_or_empty(o);
                    let j = choose|j: int| 0 <= j < s.len() && s[j] == k;
                    assert(s.push(id)[j] == k);
                }
            }
        }
        assert forall|o: Seq<char>| #[trigger] self.owned_ids(o) is Some
            implies self.owned_ids(o)->Some_0.no_duplicates() && self.owned_ids(o)->Some_0.len() > 0 by {
            if o == w {
                let s = before.owned_or_empty(o);
                if before.owned_ids(o) is Some {
                    assert(before.owned_ids(o)->Some_0.no_duplicates());
                }
                assert forall|i: int| 0 <= i < s.len() implies s[i] != id by {
                    if s[i] == id {
                        assert(before.listed(o, id));
                    }
                }
                let s2 = s.push(id);
                assert forall|i: int, j: int| 0 <= i < s2.len() && 0 <= j < s2.len() && i != j implies s2[i] != s2[j] by {
                    if i < s.len() && j < s.len() {
                        assert(s2[i] == s[i] && s2[j] == s[j]);
                    } else if i < s.len() {
                        assert(s2[i] == s[i]);
                    } else {
                        assert(s2[j] == s[j]);
                    }
                }
            }
        }
    }
}

/// After a successful mint, looking the id up returns exactly the minted
/// token: the given id, the signer as owner, and the given metadata.
pub proof fn lemma_mint_round_trip(
    before: Contract,
    after: Contract,
    signer_id: String,
    token_id: TokenId,
    title: Option<String>,
    description: Option<String>,
    media: Option<String>,
)
    requires
        before.wf(),
        Contract::minted(
            before,
            after,
            (Token {
                token_id,
                owner_id: signer_id,
                metadata: TokenMetadata { title, description, media },
            }),
        ),
    ensures
        token_result(after, token_id@) == Ok::<Token, RegistryError>(
            (Token {
                token_id,
                owner_id: signer_id,
                metadata: TokenMetadata { title, description, media },
            }),
        ),
        metadata_result(after, token_id@) == Ok::<TokenMetadata, RegistryError>(
            (TokenMetadata { title, description, media }),
        ),
        after.listed(signer_id@, token_id@),
{
    let t = Token { token_id, owner_id: signer_id, metadata: TokenMetadata { title, description, media } };
    assert(after.token(token_id@) == Some(t));
    assert(after.token_metadata(token_id@) == Some(t.metadata));
    let s = before.owned_or_empty(signer_id@);
    assert(after.owned_ids(signer_id@) == Some(s.push(token_id@)));
    assert(s.push(token_id@)[s.len() as int] == token_id@);
}

/// A minted id is listed exactly once under its owner, and under no other
/// account.
pub proof fn lemma_owner_indexing(c: Contract, token_id: Seq<char>)
    requires
        c.wf(),
        c.token(token_id) is Some,
    ensures
        c.owned_ids(c.token(token_id)->Some_0.owner_id@) is Some,
        c.listed(c.token(token_id)->Some_0.owner_id@, token_id),
        forall|i: int, j: int|
            0 <= i < j < c.owned_or_empty(c.token(token_id)->Some_0.owner_id@).len() ==> c.owned_or_empty(
                c.token(token_id)->Some_0.owner_id@,
            )[i] != c.owned_or_empty(c.token(token_id)->Some_0.owner_id@)[j],
        forall|o: Seq<char>| o != c.token(token_id)->Some_0.owner_id@ ==> !c.listed(o, token_id),
{
    let w = c.token(token_id)->Some_0.owner_id@;
    assert(c.listed(w, token_id));
    assert(c.owned_ids(w) is Some);
    assert(c.owned_ids(w)->Some_0.no_duplicates());
    assert forall|o: Seq<char>| o != w implies !c.listed(o, token_id) by {
        if c.listed(o, token_id) {
            assert(c.token(token_id)->Some_0.owner_id@ == o);
        }
    }
}

/// The metadata query agrees with the metadata field of the token query,
/// including on absence.
pub proof fn lemma_metadata_projection(c: Contract, token_id: Seq<char>)
    requires
        c.wf(),
    ensures
        metadata_result(c, token_id) == match token_result(c, token_id) {
            Ok(t) => Ok(t.metadata),
            Err(e) => Err::<TokenMetadata, RegistryError>(e),
        },
{
    c.lemma_metadata_mirrors();
    assert(c.token_metadata(token_id) == match c.token(token_id) {
        Some(t) => Some(t.metadata),
        None => None::<TokenMetadata>,
    });
}

/// An account that owns no minted token has no owner-index entry, so the
/// per-owner query fails with `NotFound` rather than returning an empty list.
pub proof fn lemma_never_minted_owner(c: Contract, owner_id: Seq<char>)
    requires
        c.wf(),
        forall|k: Seq<char>| #[trigger] c.token(k) is Some ==> c.token(k)->Some_0.owner_id@ != owner_id,
    ensures
        c.owned_ids(owner_id) is None,
        owner_tokens_result(c, owner_id, Err(RegistryError::NotFound)),
{
    if c.owned_ids(owner_id) is Some {
        let k = c.owned_ids(owner_id)->Some_0[0];
        assert(c.listed(owner_id, k));
        assert(c.token(k) is Some);
    }
}

/// Two answers to the per-owner query on the same registry and account are
/// identical.
pub proof fn lemma_owner_query_deterministic(
    c: Contract,
    owner_id: Seq<char>,
    r1: Result<Seq<Token>, RegistryError>,
    r2: Result<Seq<Token>, RegistryError>,
)
    requires
        owner_tokens_result(c, owner_id, r1),
        owner_tokens_result(c, owner_id, r2),
    ensures
        r1 == r2,
{
    if let (Ok(v1), Ok(v2)) = (r1, r2) {
        assert forall|j: int| 0 <= j < v1.len() implies v1[j] == v2[j] by {
            assert(Some(v1[j]) == Some(v2[j]));
        }
        assert(v1 =~= v2);
    }
}

/// The per-owner query for the owner of a minted id returns that token, at
/// exactly one position.
pub proof fn lemma_owner_query_lists_once(c: Contract, token_id: Seq<char>, r: Result<Seq<Token>, RegistryError>)
    requires
        c.wf(),
        c.token(token_id) is Some,
        owner_tokens_result(c, c.token(token_id)->Some_0.owner_id@, r),
    ensures
        r is Ok,
        exists|j: int| 0 <= j < r->Ok_0.len() && r->Ok_0[j] == c.token(token_id)->Some_0,
        forall|i: int, j: int|
            0 <= i < r->Ok_0.len() && 0 <= j < r->Ok_0.len() && r->Ok_0[i].token_id@ == token_id
                && r->Ok_0[j].token_id@ == token_id ==> i == j,
{
    let w = c.token(token_id)->Some_0.owner_id@;
    lemma_owner_indexing(c, token_id);
    let ids = c.owned_ids(w)->Some_0;
    let v = r->Ok_0;
    let j0 = choose|j: int| 0 <= j < ids.len() && ids[j] == token_id;
    assert(Some(v[j0]) == c.token(ids[j0]));
    assert forall|i: int| 0 <= i < v.len() implies v[i].token_id@ == ids[i] by {
        assert(Some(v[i]) == c.token(ids[i]));
        lemma_lookup_key(c.token_by_id@, by_token_id(), ids[i]);
    }
    assert forall|i: int, j: int|
        0 <= i < v.len() && 0 <= j < v.len() && v[i].token_id@ == token_id && v[j].token_id@ == token_id implies i == j by {
        assert(v[i].token_id@ == ids[i]);
        assert(v[j].token_id@ == ids[j]);
        assert(ids.no_duplicates());
    }
}

} // verus!
