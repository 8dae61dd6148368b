use treebyte_tokens::{Address, SoulboundToken, SoulboundTokenContract, TokenError};

fn setup_contract() -> (SoulboundToken, Address, Address) {
    let mut client = SoulboundToken::new();
    let issuer = Address::from_str("GISSUER");
    let user = Address::from_str("GUSER");
    client.init(issuer.clone()).unwrap();
    (client, issuer, user)
}

#[test]
fn soulbound_token_test_mint_and_get_token() {
    let issuer = Address::from_str("GISSUER");
    let mut contract = SoulboundTokenContract::new(issuer.clone());
    let user = Address::from_str("GUSER");
    let project_id = String::from("reforest-cr");
    let trees = 10;

    // Mint the token
    contract.mint(&issuer, user.clone(), project_id.clone(), trees, 1_700_000_000).unwrap();

    // Validate token data
    let (owner, proj, count, ts) = contract.get_token(0).unwrap();
    assert_eq!(owner, user);
    assert_eq!(proj, project_id);
    assert_eq!(count, trees);
    assert!(ts > 0); // Should store a valid timestamp
}

#[test]
fn test_get_tokens_by_owner() {
    let issuer = Address::from_str("GISSUER");
    let mut contract = SoulboundTokenContract::new(issuer.clone());
    let user1 = Address::from_str("GUSER1");
    let user2 = Address::from_str("GUSER2");
    let project_id = String::from("treebyte-1");

    // Mint tokens
    contract.mint(&issuer, user1.clone(), project_id.clone(), 3, 1).unwrap();
    contract.mint(&issuer, user1.clone(), project_id.clone(), 5, 2).unwrap();
    contract.mint(&issuer, user2.clone(), project_id.clone(), 1, 3).unwrap();

    // Validate index by owner
    let tokens1 = contract.get_tokens_by_owner(&user1);
    assert_eq!(tokens1.len(), 2);
    assert_eq!(tokens1.get(0), Some(&0));
    assert_eq!(tokens1.get(1), Some(&1));

    let tokens2 = contract.get_tokens_by_owner(&user2);
    assert_eq!(tokens2.len(), 1);
    assert_eq!(tokens2.get(0), Some(&2));
}

#[test]
#[should_panic]
fn test_unauthorized_mint_fails() {
    let mut contract = SoulboundTokenContract::new(Address::from_str("GISSUER"));
    let stranger = Address::from_str("GSTRANGER");
    let user = Address::from_str("GUSER");
    let project_id = String::from("project-x");

    let r = contract.mint(&stranger, user, project_id, 1, 1);
    assert_eq!(r, Err(TokenError::Unauthorized));
    r.expect("unauthorized");
}

#[test]
fn test_test_mint_and_get_token() {
    let (mut client, issuer, user) = setup_contract();
    let token_id = client.mint(&issuer, user.clone(), String::from("tree"), 10, 123456789).unwrap();

    let token = client.get_token(token_id).unwrap();
    assert_eq!(token.owner, user);
    assert_eq!(token.project_id, "tree");
    assert_eq!(token.trees_count, 10);
    assert_eq!(token.timestamp, 123456789);
}

#[test]
#[should_panic]
fn test_mint_unauthorized() {
    let (mut client, _issuer, user) = setup_contract();

    let attacker = Address::from_str("GATTACKER");
    let r = client.mint(&attacker, user, String::from("tree"), 10, 1);
    assert_eq!(r, Err(TokenError::Unauthorized));
    r.expect("unauthorized");
}

#[test]
fn test_get_tokens_by_owner_empty() {
    let (client, _issuer, user) = setup_contract();

    let tokens = client.get_tokens_by_owner(&user);

    assert_eq!(tokens.len(), 0);
}

#[test]
#[should_panic]
fn test_get_nonexistent_token_should_panic() {
    let (client, _issuer, _user) = setup_contract();

    let r = client.get_token(0);
    assert!(matches!(r, Err(TokenError::TokenNotFound)));
    r.expect("token not found");
}

#[test]
fn test_mint_multiple_users() {
    let (mut client, issuer, user1) = setup_contract();
    let user2 = Address::from_str("GUSER2");

    client.mint(&issuer, user1.clone(), String::from("a"), 1, 0).unwrap(); // token 0
    client.mint(&issuer, user2.clone(), String::from("b"), 2, 0).unwrap(); // token 1

    let token0 = client.get_token(0).unwrap();
    let token1 = client.get_token(1).unwrap();

    assert_eq!(token0.owner, user1);
    assert_eq!(token1.owner, user2);

    let user1_tokens = client.get_tokens_by_owner(&user1);
    let user2_tokens = client.get_tokens_by_owner(&user2);

    assert_eq!(user1_tokens.len(), 1);
    assert_eq!(user1_tokens.get(0), Some(&0));
    assert_eq!(user2_tokens.len(), 1);
    assert_eq!(user2_tokens.get(0), Some(&1));
}

#[test]
fn test_token_id_incrementing() {
    let (mut client, issuer, user) = setup_contract();

    let id1 = client.mint(&issuer, user.clone(), String::from("one"), 1, 0).unwrap();
    let id2 = client.mint(&issuer, user.clone(), String::from("two"), 2, 0).unwrap();

    assert_eq!(id1, 0);
    assert_eq!(id2, 1);
}

#[test]
fn scenario_two_users_one_token_each() {
    let (mut client, issuer, u) = setup_contract();
    let v = Address::from_str("GV");
    let t: u64 = 1_650_000_000;

    let id_u = client.mint(&issuer, u.clone(), String::from("reforest-cr"), 10, t).unwrap();
    assert_eq!(id_u, 0);
    let token = client.get_token(0).unwrap();
    assert_eq!(token.owner, u);
    assert_eq!(token.trees_count, 10);
    assert_eq!(token.timestamp, t);

    let id_v = client.mint(&issuer, v.clone(), String::from("reforest-cr"), 4, t + 5).unwrap();
    assert_eq!(id_v, 1);
    assert_eq!(client.get_tokens_by_owner(&u), vec![0]);
    assert_eq!(client.get_tokens_by_owner(&v), vec![1]);
}

#[test]
fn ids_follow_call_order_and_index_keeps_mint_order() {
    let (mut client, issuer, a) = setup_contract();
    let b = Address::from_str("GB");
    let c = Address::from_str("GC");
    let owners = [&a, &b, &a, &c, &a, &b];
    for (k, owner) in owners.iter().enumerate() {
        let id = client.mint(&issuer, (*owner).clone(), String::from("p"), k as u64, 0).unwrap();
        assert_eq!(id, k as u64);
    }
    assert_eq!(client.get_tokens_by_owner(&a), vec![0, 2, 4]);
    assert_eq!(client.get_tokens_by_owner(&b), vec![1, 5]);
    assert_eq!(client.get_tokens_by_owner(&c), vec![3]);
    assert_eq!(client.get_tokens_by_owner(&Address::from_str("GNONE")), Vec::<u64>::new());
    for k in 0..6u64 {
        assert_eq!(client.get_token(k).unwrap().trees_count, k);
    }
}

#[test]
fn unauthorized_mint_leaves_no_trace() {
    let (mut client, issuer, user) = setup_contract();
    client.mint(&issuer, user.clone(), String::from("p"), 1, 0).unwrap();
    let r = client.mint(&user, user.clone(), String::from("p"), 1, 0);
    assert_eq!(r, Err(TokenError::Unauthorized));
    assert_eq!(client.get_tokens_by_owner(&user), vec![0]);
    assert!(matches!(client.get_token(1), Err(TokenError::TokenNotFound)));
    let next = client.mint(&issuer, user.clone(), String::from("p"), 1, 0).unwrap();
    assert_eq!(next, 1);
}

#[test]
fn token_lookup_past_the_last_id_fails() {
    let (mut client, issuer, user) = setup_contract();
    client.mint(&issuer, user, String::from("p"), 1, 0).unwrap();
    assert!(client.get_token(0).is_ok());
    assert!(matches!(client.get_token(1), Err(TokenError::TokenNotFound)));
    assert!(matches!(client.get_token(u64::MAX), Err(TokenError::TokenNotFound)));
}

#[test]
fn mint_without_issuer_is_refused() {
    let mut client = SoulboundToken::new();
    let a = Address::from_str("GA");
    let r = client.mint(&a, a.clone(), String::from("p"), 1, 0);
    assert_eq!(r, Err(TokenError::NotInitialized));
    assert_eq!(client.get_tokens_by_owner(&a).len(), 0);
}

#[test]
fn issuer_is_set_only_once() {
    let (mut client, issuer, user) = setup_contract();
    assert_eq!(client.init(user.clone()), Err(TokenError::AlreadyInitialized));
    assert_eq!(client.issuer_address(), Some(&issuer));
    assert_eq!(client.mint(&user, user.clone(), String::from("p"), 1, 0), Err(TokenError::Unauthorized));
}

#[test]
fn fixed_issuer_contract_recognises_only_its_issuer() {
    let issuer = Address::from_str("GISSUER");
    let contract = SoulboundTokenContract::new(issuer.clone());
    assert!(contract.is_authorized_issuer(&issuer));
    assert!(!contract.is_authorized_issuer(&Address::from_str("GOTHER")));
    assert!(matches!(contract.get_token(0), Err(TokenError::TokenNotFound)));
}
