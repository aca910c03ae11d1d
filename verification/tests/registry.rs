use contract_profiler::incidents::{ListIncidentsQuery, DEFAULT_PAGE_SIZE, MAX_PAGE_SIZE};
use contract_profiler::registry::{
    contract_url, list_url, publish_url, search_url, ContractListing, ContractRecord,
};

fn record() -> ContractRecord {
    ContractRecord {
        name: Some(String::from("Token")),
        contract_id: Some(String::from("CABC")),
        is_verified: Some(true),
        network: Some(String::from("testnet")),
        description: Some(String::from("A token")),
        tags: Some(vec![Some(String::from("defi")), None, Some(String::from("token"))]),
    }
}

fn empty() -> ContractRecord {
    ContractRecord {
        name: None,
        contract_id: None,
        is_verified: None,
        network: None,
        description: None,
        tags: None,
    }
}

#[test]
fn search_url_names_the_query() {
    assert_eq!(
        search_url("http://localhost:3001", "token", None, false),
        "http://localhost:3001/api/contracts?query=token"
    );
    assert_eq!(
        search_url("http://localhost:3001", "token", Some("testnet"), false),
        "http://localhost:3001/api/contracts?query=token&network=testnet"
    );
    assert_eq!(
        search_url("http://localhost:3001", "token", None, true),
        "http://localhost:3001/api/contracts?query=token&verified_only=true"
    );
    assert_eq!(
        search_url("http://r", "", Some("mainnet"), true),
        "http://r/api/contracts?query=&network=mainnet&verified_only=true"
    );
}

#[test]
fn contract_and_publish_urls() {
    assert_eq!(contract_url("http://r", "CABC"), "http://r/api/contracts/CABC");
    assert_eq!(publish_url("http://r"), "http://r/api/contracts");
}

#[test]
fn list_url_names_the_page_size() {
    assert_eq!(list_url("http://r", 10, None), "http://r/api/contracts?page_size=10");
    assert_eq!(
        list_url("http://r", 0, Some("futurenet")),
        "http://r/api/contracts?page_size=0&network=futurenet"
    );
    assert_eq!(
        list_url("http://r", 1234567890, None),
        "http://r/api/contracts?page_size=1234567890"
    );
}

#[test]
fn listing_keeps_what_the_record_holds() {
    assert_eq!(
        record().listing(),
        ContractListing {
            name: String::from("Token"),
            contract_id: String::from("CABC"),
            is_verified: true,
            network: String::from("testnet"),
            description: Some(String::from("A token")),
        }
    );
    assert_eq!(record().receipt(), record().listing());
}

#[test]
fn listing_fills_in_what_is_missing() {
    assert_eq!(
        empty().listing(),
        ContractListing {
            name: String::from("Unknown"),
            contract_id: String::new(),
            is_verified: false,
            network: String::new(),
            description: None,
        }
    );
    assert_eq!(empty().receipt().name, "");
}

#[test]
fn tags_are_shown_on_one_line() {
    assert_eq!(record().tags_shown(), Some(String::from("defi, , token")));
    assert_eq!(empty().tags_shown(), None);
    let mut none = empty();
    none.tags = Some(vec![]);
    assert_eq!(none.tags_shown(), None);
    let mut one = empty();
    one.tags = Some(vec![Some(String::from("solo"))]);
    assert_eq!(one.tags_shown(), Some(String::from("solo")));
}

#[test]
fn page_size_defaults_and_is_capped() {
    let q = |limit, offset| ListIncidentsQuery { limit, offset };
    assert_eq!(DEFAULT_PAGE_SIZE, 50);
    assert_eq!(MAX_PAGE_SIZE, 100);
    assert_eq!(q(None, None).page_size(), 50);
    assert_eq!(q(Some(0), None).page_size(), 0);
    assert_eq!(q(Some(20), None).page_size(), 20);
    assert_eq!(q(Some(100), None).page_size(), 100);
    assert_eq!(q(Some(101), None).page_size(), 100);
    assert_eq!(q(Some(usize::MAX), None).page_size(), 100);
}

#[test]
fn page_start_defaults_to_zero() {
    let q = |limit, offset| ListIncidentsQuery { limit, offset };
    assert_eq!(q(None, None).page_start(), 0);
    assert_eq!(q(Some(5), Some(40)).page_start(), 40);
    assert_eq!(q(None, Some(usize::MAX)).page_start(), usize::MAX);
}
