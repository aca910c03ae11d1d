//! Talking to the contract registry: the addresses of its endpoints and
//! the reading of the records it answers with.

use vstd::prelude::*;
use vstd::string::StringExecFns;
use crate::text::{decimal, push_decimal};

verus! {

/// The characters of an optional string slice.
pub open spec fn opt_chars(text: Option<&str>) -> Option<Seq<char>> {
    match text {
        Some(t) => Some(t@),
        None => None,
    }
}

/// The characters of an optional string.
pub open spec fn opt_text(text: Option<String>) -> Option<Seq<char>> {
    match text {
        Some(t) => Some(t@),
        None => None,
    }
}

/// The `network` parameter of a query, where a network is named.
pub open spec fn network_part(network: Option<Seq<char>>) -> Seq<char> {
    match network {
        Some(n) => "&network="@ + n,
        None => Seq::empty(),
    }
}

/// The address that searches the registry for `query`.
pub open spec fn search_address(
    api_url: Seq<char>,
    query: Seq<char>,
    network: Option<Seq<char>>,
    verified_only: bool,
) -> Seq<char> {
    api_url + "/api/contracts?query="@ + query + network_part(network) + if verified_only {
        "&verified_only=true"@
    } else {
        Seq::empty()
    }
}

/// The address of one contract's record.
pub open spec fn contract_address(api_url: Seq<char>, contract_id: Seq<char>) -> Seq<char> {
    api_url + "/api/contracts/"@ + contract_id
}

/// The address that contracts are published to.
pub open spec fn publish_address(api_url: Seq<char>) -> Seq<char> {
    api_url + "/api/contracts"@
}

/// The address that lists the most recent `limit` contracts.
pub open spec fn list_address(api_url: Seq<char>, limit: nat, network: Option<Seq<char>>) -> Seq<
    char,
> {
    api_url + "/api/contracts?page_size="@ + decimal(limit) + network_part(network)
}

fn push_network(out: &mut String, network: Option<&str>)
    ensures
        final(out)@ == old(out)@ + network_part(opt_chars(network)),
{
    match network {
        Some(n) => {
            out.append("&network=");
            out.append(n);
            proof {
                assert(out@ =~= old(out)@ + network_part(opt_chars(network)));
            }
        },
        None => {
            proof {
                assert(out@ =~= old(out)@ + network_part(opt_chars(network)));
            }
        },
    }
}

/// The address that searches the registry for `query`, within `network`
/// where one is named, among verified contracts only where that is asked.
pub fn search_url(api_url: &str, query: &str, network: Option<&str>, verified_only: bool) -> (url:
    String)
    ensures
        url@ == search_address(api_url@, query@, opt_chars(network), verified_only),
{
    let mut url = String::from_str(api_url);
    url.append("/api/contracts?query=");
    url.append(query);
    push_network(&mut url, network);
    if verified_only {
        url.append("&verified_only=true");
    }
    proof {
        assert(url@ =~= search_address(api_url@, query@, opt_chars(network), verified_only));
    }
    url
}

/// The address of one contract's record.
pub fn contract_url(api_url: &str, contract_id: &str) -> (url: String)
    ensures
        url@ == contract_address(api_url@, contract_id@),
{
    let mut url = String::from_str(api_url);
    url.append("/api/contracts/");
    url.append(contract_id);
    url
}

/// The address that contracts are published to.
pub fn publish_url(api_url: &str) -> (url: String)
    ensures
        url@ == publish_address(api_url@),
{
    let mut url = String::from_str(api_url);
    url.append("/api/contracts");
    url
}

/// The address that lists the most recent `limit` contracts, of `network`
/// where one is named.
pub fn list_url(api_url: &str, limit: usize, network: Option<&str>) -> (url: String)
    ensures
        url@ == list_address(api_url@, limit as nat, opt_chars(network)),
{
    let mut url = String::from_str(api_url);
    url.append("/api/contracts?page_size=");
    push_decimal(&mut url, limit as u128);
    push_network(&mut url, network);
    proof {
        assert(url@ =~= list_address(api_url@, limit as nat, opt_chars(network)));
    }
    url
}

/// A contract's record as the registry sent it: each field as far as it
/// was there and of the expected kind.
#[derive(Clone, Debug, PartialEq, Eq)]
pub struct ContractRecord {
    pub name: Option<String>,
    pub contract_id: Option<String>,
    pub is_verified: Option<bool>,
    pub network: Option<String>,
    pub description: Option<String>,
    /// The tags; a tag that is not text is `None`.
    pub tags: Option<Vec<Option<String>>>,
}

/// A contract's record made ready for display: every field that a
/// listing shows has a value.
#[derive(Clone, Debug, PartialEq, Eq)]
pub struct ContractListing {
    pub name: String,
    pub contract_id: String,
    pub is_verified: bool,
    pub network: String,
    pub description: Option<String>,
}

/// A `ContractListing` as plain mathematical values.
pub struct ContractListingView {
    pub name: Seq<char>,
    pub contract_id: Seq<char>,
    pub is_verified: bool,
    pub network: Seq<char>,
    pub description: Option<Seq<char>>,
}

impl View for ContractListing {
    type V = ContractListingView;

    open spec fn view(&self) -> ContractListingView {
        ContractListingView {
            name: self.name@,
            contract_id: self.contract_id@,
            is_verified: self.is_verified,
            network: self.network@,
            description: opt_text(self.description),
        }
    }
}

/// The text of a field, or `fallback` where the field is missing.
pub open spec fn text_or(field: Option<String>, fallback: Seq<char>) -> Seq<char> {
    match field {
        Some(t) => t@,
        None => fallback,
    }
}

/// The tags as one line: separated by a comma and a space, a tag that is
/// not text left empty.
pub open spec fn tag_line(tags: Seq<Option<String>>) -> Seq<char>
    decreases tags.len(),
{
    if tags.len() == 0 {
        Seq::empty()
    } else if tags.len() == 1 {
        text_or(tags[0], Seq::empty())
    } else {
        tag_line(tags.drop_last()) + ", "@ + text_or(tags.last(), Seq::empty())
    }
}

fn or_fallback(field: &Option<String>, fallback: &str) -> (text: String)
    ensures
        text@ == text_or(*field, fallback@),
{
    match field {
        Some(t) => t.clone(),
        None => String::from_str(fallback),
    }
}

impl ContractRecord {
    /// What a listing shows for the record, with `unnamed` for a missing
    /// name: a missing identifier or network is empty, and a contract
    /// counts as unverified unless the record says otherwise.
    pub open spec fn shown(self, unnamed: Seq<char>) -> ContractListingView {
        ContractListingView {
            name: text_or(self.name, unnamed),
            contract_id: text_or(self.contract_id, Seq::empty()),
            is_verified: match self.is_verified {
                Some(v) => v,
                None => false,
            },
            network: text_or(self.network, Seq::empty()),
            description: opt_text(self.description),
        }
    }

    fn resolve(&self, unnamed: &str) -> (listing: ContractListing)
        ensures
            listing@ == self.shown(unnamed@),
    {
        proof {
            reveal_strlit("");
            assert(""@ =~= Seq::<char>::empty());
        }
        ContractListing {
            name: or_fallback(&self.name, unnamed),
            contract_id: or_fallback(&self.contract_id, ""),
            is_verified: match self.is_verified {
                Some(v) => v,
                None => false,
            },
            network: or_fallback(&self.network, ""),
            description: match &self.description {
                Some(d) => Some(d.clone()),
                None => None,
            },
        }
    }

    /// The record as search results, listings and contract details show
    /// it: a contract without a name is called `Unknown`.
    pub fn listing(&self) -> (listing: ContractListing)
        ensures
            listing@ == self.shown("Unknown"@),
    {
        self.resolve("Unknown")
    }

    /// The record as the receipt of a publication shows it: a missing
    /// name is left empty.
    pub fn receipt(&self) -> (listing: ContractListing)
        ensures
            listing@ == self.shown(""@),
    {
        self.resolve("")
    }

    /// The line of tags that contract details show; `None` where the
    /// record has no tags or an empty list of them.
    pub fn tags_shown(&self) -> (line: Option<String>)
        ensures
            match self.tags {
                Some(tags) if tags@.len() > 0 => line matches Some(text) && text@ == tag_line(
                    tags@,
                ),
                _ => line is None,
            },
    {
        match &self.tags {
            None => None,
            Some(tags) => {
                if tags.len() == 0 {
                    return None;
                }
                let mut line = or_fallback(&tags[0], "");
                let mut i: usize = 1;
                proof {
                    reveal_strlit("");
                    assert(""@ =~= Seq::<char>::empty());
                    assert(tags@.take(1).len() == 1);
                    assert(tags@.take(1)[0] == tags@[0]);
                }
                while i < tags.len()
                    invariant
                        1 <= i <= tags.len(),
                        ""@ == Seq::<char>::empty(),
                        line@ == tag_line(tags@.take(i as int)),
                    decreases tags.len() - i,
                {
                    let next = or_fallback(&tags[i], "");
                    line.append(", ");
                    line.append(next.as_str());
                    proof {
                        assert(tags@.take(i + 1).drop_last() =~= tags@.take(i as int));
                        assert(tags@.take(i + 1).last() == tags@[i as int]);
                        assert(tags@.take(i + 1).len() == i + 1);
                        assert(line@ =~= tag_line(tags@.take(i + 1)));
                    }
                    i += 1;
                }
                proof {
                    assert(tags@.take(tags.len() as int) =~= tags@);
                }
                Some(line)
            },
        }
    }
}

} // verus!
