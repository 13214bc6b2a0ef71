use nft_contract::registry::Contract;
use nft_contract::types::{RegistryError, Token, TokenMetadata};

fn s(x: &str) -> String {
    x.to_string()
}

fn some(x: &str) -> Option<String> {
    Some(x.to_string())
}

#[test]
fn mint_then_query_scenario() {
    let mut c = Contract::new(s("admin"));
    assert_eq!(c.mint(s("alice"), s("tok-1"), some("Art"), None, some("ipfs://x")), Ok(()));
    let expected = Token {
        token_id: s("tok-1"),
        owner_id: s("alice"),
        metadata: TokenMetadata { title: some("Art"), description: None, media: some("ipfs://x") },
    };
    assert_eq!(c.get_token_by_id(s("tok-1")), Ok(expected.clone()));
    assert_eq!(c.get_tokens_per_owner(s("alice")), Ok(vec![expected]));
    assert_eq!(c.get_token_by_id(s("tok-2")), Err(RegistryError::NotFound));
}

#[test]
fn second_mint_of_same_id_is_rejected() {
    let mut c = Contract::new(s("admin"));
    assert_eq!(c.mint(s("alice"), s("tok-1"), some("Art"), None, some("ipfs://x")), Ok(()));
    assert_eq!(
        c.mint(s("bob"), s("tok-1"), some("Other"), some("d"), None),
        Err(RegistryError::DuplicateMint)
    );
    let t = c.get_token_by_id(s("tok-1")).unwrap();
    assert_eq!(t.owner_id, s("alice"));
    assert_eq!(t.metadata.title, some("Art"));
    assert_eq!(c.get_tokens_per_owner(s("alice")).unwrap().len(), 1);
    assert_eq!(c.get_tokens_per_owner(s("bob")), Err(RegistryError::NotFound));
}

#[test]
fn each_token_listed_once_under_its_owner_only() {
    let mut c = Contract::new(s("admin"));
    assert_eq!(c.mint(s("alice"), s("a1"), None, None, None), Ok(()));
    assert_eq!(c.mint(s("bob"), s("b1"), some("B"), None, None), Ok(()));
    assert_eq!(c.mint(s("alice"), s("a2"), some("A2"), some("second"), some("m")), Ok(()));
    let alice: Vec<String> = c.get_tokens_per_owner(s("alice")).unwrap().into_iter().map(|t| t.token_id).collect();
    assert_eq!(alice, vec![s("a1"), s("a2")]);
    let bob: Vec<String> = c.get_tokens_per_owner(s("bob")).unwrap().into_iter().map(|t| t.token_id).collect();
    assert_eq!(bob, vec![s("b1")]);
    for t in c.get_tokens_per_owner(s("alice")).unwrap() {
        assert_eq!(t.owner_id, s("alice"));
    }
}

#[test]
fn metadata_query_matches_token_metadata() {
    let mut c = Contract::new(s("admin"));
    assert_eq!(c.mint(s("carol"), s("x"), some("T"), some("D"), some("M")), Ok(()));
    let t = c.get_token_by_id(s("x")).unwrap();
    assert_eq!(c.get_token_metadata_by_id(s("x")), Ok(t.metadata));
    assert_eq!(
        c.get_token_metadata_by_id(s("x")),
        Ok(TokenMetadata { title: some("T"), description: some("D"), media: some("M") })
    );
    assert_eq!(c.get_token_metadata_by_id(s("y")), Err(RegistryError::NotFound));
}

#[test]
fn empty_registry_reports_not_found() {
    let c = Contract::new(s("admin"));
    assert_eq!(c.get_token_by_id(s("tok-1")), Err(RegistryError::NotFound));
    assert_eq!(c.get_token_metadata_by_id(s("tok-1")), Err(RegistryError::NotFound));
    assert_eq!(c.get_tokens_per_owner(s("admin")), Err(RegistryError::NotFound));
}

#[test]
fn owner_that_never_minted_is_not_found() {
    let mut c = Contract::new(s("admin"));
    assert_eq!(c.mint(s("alice"), s("tok-1"), None, None, None), Ok(()));
    assert_eq!(c.get_tokens_per_owner(s("dave")), Err(RegistryError::NotFound));
}

#[test]
fn repeated_queries_agree() {
    let mut c = Contract::new(s("admin"));
    assert_eq!(c.mint(s("alice"), s("t1"), some("one"), None, None), Ok(()));
    assert_eq!(c.mint(s("alice"), s("t2"), None, some("two"), None), Ok(()));
    assert_eq!(c.get_token_by_id(s("t1")), c.get_token_by_id(s("t1")));
    assert_eq!(c.get_token_by_id(s("zz")), c.get_token_by_id(s("zz")));
    assert_eq!(c.get_token_metadata_by_id(s("t2")), c.get_token_metadata_by_id(s("t2")));
    assert_eq!(c.get_tokens_per_owner(s("alice")), c.get_tokens_per_owner(s("alice")));
    assert_eq!(c.get_tokens_per_owner(s("bob")), c.get_tokens_per_owner(s("bob")));
}

#[test]
fn empty_id_and_absent_metadata_are_accepted() {
    let mut c = Contract::new(s("admin"));
    assert_eq!(c.mint(s("alice"), s(""), None, None, None), Ok(()));
    let t = c.get_token_by_id(s("")).unwrap();
    assert_eq!(t.token_id, s(""));
    assert_eq!(t.metadata, TokenMetadata { title: None, description: None, media: None });
    assert_eq!(c.mint(s("alice"), s(""), some("again"), None, None), Err(RegistryError::DuplicateMint));
}

#[test]
fn ids_differing_only_in_case_are_distinct() {
    let mut c = Contract::new(s("admin"));
    assert_eq!(c.mint(s("alice"), s("Tok"), None, None, None), Ok(()));
    assert_eq!(c.mint(s("bob"), s("tok"), None, None, None), Ok(()));
    assert_eq!(c.get_token_by_id(s("Tok")).unwrap().owner_id, s("alice"));
    assert_eq!(c.get_token_by_id(s("tok")).unwrap().owner_id, s("bob"));
}

#[test]
fn new_registry_describes_the_collection() {
    let mut c = Contract::new(s("admin"));
    assert_eq!(c.owner_id(), &s("admin"));
    let m = c.nft_metadata().unwrap();
    assert_eq!(m.spec, s("nft-1.0.0"));
    assert_eq!(m.name, s("Blockchain Bootcamp Contract"));
    assert_eq!(m.symbol, s("BBC"));
    assert_eq!(m.icon, None);
    assert_eq!(m.base_uri, None);
    assert_eq!(m.reference, None);
    assert_eq!(m.reference_hash, None);
    assert_eq!(c.mint(s("alice"), s("t"), None, None, None), Ok(()));
    assert_eq!(c.owner_id(), &s("admin"));
    assert_eq!(c.nft_metadata(), Some(m));
}
