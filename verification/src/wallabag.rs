//! Read-later client support: option validation and query assembly.

use crate::strbytes::ascii_chars_of;
use crate::strbytes::ascii_string;
use crate::strbytes::dec_digits;
use crate::strbytes::push_dec;
use vstd::prelude::*;

verus! {

/// Stored credentials and endpoint of the read-later service.
pub struct Config {
    pub base_url: String,
    pub client_id: String,
    pub client_secret: String,
    pub username: String,
    pub password: String,
    pub access_token: Option<String>,
    pub refresh_token: Option<String>,
}

/// An archive flag must be 0 or 1.
pub fn validate_archive(archive: u8) -> (r: bool)
    ensures
        r == (archive == 0 || archive == 1),
{
    archive == 0 || archive == 1
}

/// A starred flag must be 0 or 1.
pub fn validate_starred(starred: u8) -> (r: bool)
    ensures
        r == (starred == 0 || starred == 1),
{
    starred == 0 || starred == 1
}

/// A public flag must be 0 or 1.
pub fn validate_public(public: u8) -> (r: bool)
    ensures
        r == (public == 0 || public == 1),
{
    public == 0 || public == 1
}

/// The accepted sort keys.
pub fn validate_sort(sort: &str) -> (r: bool)
    ensures
        r == (sort@ == ("created")@ || sort@ == ("updated")@ || sort@ == ("archived")@),
{
    crate::strbytes::str_eq(sort, "created") || crate::strbytes::str_eq(sort, "updated")
        || crate::strbytes::str_eq(sort, "archived")
}

/// The accepted sort orders.
pub fn validate_order(order: &str) -> (r: bool)
    ensures
        r == (order@ == ("asc")@ || order@ == ("desc")@),
{
    crate::strbytes::str_eq(order, "asc") || crate::strbytes::str_eq(order, "desc")
}

/// The accepted detail levels.
pub fn validate_detail(detail: &str) -> (r: bool)
    ensures
        r == (detail@ == ("metadata")@ || detail@ == ("full")@),
{
    crate::strbytes::str_eq(detail, "metadata") || crate::strbytes::str_eq(detail, "full")
}

/// The decimal character form of a number.
pub open spec fn dec_chars(n: nat) -> Seq<char> {
    ascii_chars_of(dec_digits(n))
}

/// Decimal digits are ASCII bytes.
proof fn lemma_dec_digits_ascii(n: nat)
    ensures
        crate::strbytes::all_ascii(dec_digits(n)),
    decreases n,
{
    if n >= 10 {
        lemma_dec_digits_ascii(n / 10);
        assert forall|i: int| 0 <= i < dec_digits(n).len() implies dec_digits(n)[i] < 128 by {
            if i < dec_digits(n).len() - 1 {
                assert(dec_digits(n)[i] == dec_digits(n / 10)[i]);
            }
        }
    }
}

/// Decimal form of a number as a string.
pub fn dec_string(n: u64) -> (r: String)
    ensures
        r@ == dec_chars(n as nat),
{
    let mut b: Vec<u8> = Vec::new();
    push_dec(&mut b, n);
    proof {
        lemma_dec_digits_ascii(n as nat);
        assert(b@ =~= dec_digits(n as nat));
    }
    ascii_string(b)
}

/// The fixed query-parameter list for an entry listing, in order.
pub fn build_query_params(
    archive: u8,
    starred: u8,
    sort: &str,
    order: &str,
    page: u32,
    per_page: u32,
    tags: &str,
    since: u64,
    public: u8,
    detail: &str,
    domain_name: &str,
) -> (r: Vec<(&'static str, String)>)
    ensures
        r@.len() == 11,
        r@[0].0@ == ("archive")@ && r@[0].1@ == dec_chars(archive as nat),
        r@[1].0@ == ("starred")@ && r@[1].1@ == dec_chars(starred as nat),
        r@[2].0@ == ("sort")@ && r@[2].1@ == sort@,
        r@[3].0@ == ("order")@ && r@[3].1@ == order@,
        r@[4].0@ == ("page")@ && r@[4].1@ == dec_chars(page as nat),
        r@[5].0@ == ("perPage")@ && r@[5].1@ == dec_chars(per_page as nat),
        r@[6].0@ == ("tags")@ && r@[6].1@ == tags@,
        r@[7].0@ == ("since")@ && r@[7].1@ == dec_chars(since as nat),
        r@[8].0@ == ("public")@ && r@[8].1@ == dec_chars(public as nat),
        r@[9].0@ == ("detail")@ && r@[9].1@ == detail@,
        r@[10].0@ == ("domain_name")@ && r@[10].1@ == domain_name@,
{
    let mut v: Vec<(&'static str, String)> = Vec::new();
    v.push(("archive", dec_string(archive as u64)));
    v.push(("starred", dec_string(starred as u64)));
    v.push(("sort", sort.to_owned()));
    v.push(("order", order.to_owned()));
    v.push(("page", dec_string(page as u64)));
    v.push(("perPage", dec_string(per_page as u64)));
    v.push(("tags", tags.to_owned()));
    v.push(("since", dec_string(since)));
    v.push(("public", dec_string(public as u64)));
    v.push(("detail", detail.to_owned()));
    v.push(("domain_name", domain_name.to_owned()));
    v
}

} // verus!
