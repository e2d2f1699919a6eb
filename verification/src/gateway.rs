//! Requests to the gateway through which nodes find each other, and its answers.
use crate::network::message::ChainParams;
use crate::text::{
    begins_with, chars_of, decimal, decimal_text, find_part, has_part, hex_encode, hex_text,
    occurs_at, starts_with_part,
};
use vstd::prelude::*;
use vstd::string::*;

verus! {

/// A text without a scheme in front.
pub open spec fn without_scheme(url: Seq<char>) -> Seq<char> {
    if begins_with(url, "http://"@) {
        url.skip(7)
    } else if begins_with(url, "https://"@) {
        url.skip(8)
    } else {
        url
    }
}

/// A text without slashes at its end.
pub open spec fn without_end_slashes(text: Seq<char>) -> Seq<char>
    decreases text.len(),
{
    if text.len() > 0 && text.last() == '/' {
        without_end_slashes(text.drop_last())
    } else {
        text
    }
}

/// The host and port that a gateway url names.
pub open spec fn authority_of(url: Seq<char>) -> Seq<char> {
    without_end_slashes(without_scheme(url))
}

/// The host and port that a gateway url names; a url with a path is refused.
pub fn gateway_authority(url: &str) -> (r: Result<String, String>)
    ensures
        match r {
            Ok(authority) => authority@ == authority_of(url@) && !authority_of(url@).contains('/'),
            Err(error) => authority_of(url@).contains('/') && error@
                == "gateway url path is not supported; use host:port"@,
        },
{
    proof {
        reveal_strlit("http://");
        reveal_strlit("https://");
    }
    let chars = chars_of(url);
    let start: usize = if starts_with_part(url, "http://") {
        7
    } else if starts_with_part(url, "https://") {
        8
    } else {
        0
    };
    let ghost rest = without_scheme(url@);
    assert(rest =~= url@.skip(start as int));
    let mut end: usize = chars.len();
    assert(url@.subrange(start as int, end as int) =~= rest);
    while end > start && chars[end - 1] == '/'
        invariant
            chars@ == url@,
            start <= end <= url@.len(),
            without_end_slashes(rest) == without_end_slashes(
                url@.subrange(start as int, end as int),
            ),
        decreases end,
    {
        assert(url@.subrange(start as int, end as int).drop_last() =~= url@.subrange(
            start as int,
            end - 1,
        ));
        end = end - 1;
    }
    let ghost authority = url@.subrange(start as int, end as int);
    assert(authority == authority_of(url@)) by {
        if end > start {
            assert(authority.last() == url@[end - 1]);
        }
    }
    let mut i: usize = start;
    while i < end
        invariant
            chars@ == url@,
            start <= i <= end <= url@.len(),
            authority == url@.subrange(start as int, end as int),
            authority == authority_of(url@),
            forall|j: int| start <= j < i ==> url@[j] != '/',
        decreases end - i,
    {
        if chars[i] == '/' {
            assert(authority[i - start] == '/');
            return Err(String::from_str("gateway url path is not supported; use host:port"));
        }
        i = i + 1;
    }
    assert(!authority.contains('/')) by {
        if authority.contains('/') {
            let k = authority.index_of('/');
            assert(url@[start + k] == '/');
        }
    }
    Ok(String::from_str(url.substring_char(start, end)))
}

/// The path of a request for peers.
pub open spec fn peers_path_text(
    params: ChainParams,
    limit: usize,
    exclude: Option<Seq<char>>,
) -> Seq<char> {
    let base = "/v1/peers?chain_id="@ + decimal_text(params.chain_id as nat) + "&chain_name="@
        + params.chain_name@ + "&protocol_stage="@ + params.protocol_stage@
        + "&protocol_version="@ + decimal_text(params.protocol_version as nat)
        + "&network_magic="@ + hex_text(params.network_magic@) + "&limit="@ + decimal_text(
        limit as nat,
    );
    match exclude {
        Some(addr) => base + "&exclude="@ + addr,
        None => base,
    }
}

/// The path of a request for at most `limit` peers of a chain, leaving out one address.
pub fn peers_path(params: &ChainParams, limit: usize, exclude: &Option<String>) -> (r: String)
    ensures
        r@ == peers_path_text(
            *params,
            limit,
            match *exclude {
                Some(addr) => Some(addr@),
                None => None,
            },
        ),
{
    let mut path = String::from_str("/v1/peers?chain_id=");
    path.append(decimal(params.chain_id as u64).as_str());
    path.append("&chain_name=");
    path.append(params.chain_name.as_str());
    path.append("&protocol_stage=");
    path.append(params.protocol_stage.as_str());
    path.append("&protocol_version=");
    path.append(decimal(params.protocol_version as u64).as_str());
    path.append("&network_magic=");
    path.append(hex_encode(params.network_magic.as_slice()).as_str());
    path.append("&limit=");
    path.append(decimal(limit as u64).as_str());
    match exclude {
        Some(addr) => {
            path.append("&exclude=");
            path.append(addr.as_str());
        },
        None => {},
    }
    path
}

/// A request for a resource.
pub fn get_request(path: &str, host: &str) -> (r: String)
    ensures
        r@ == "GET "@ + path@ + " HTTP/1.1\r\nhost: "@ + host@ + "\r\nconnection: close\r\n\r\n"@,
{
    let mut text = String::from_str("GET ");
    text.append(path);
    text.append(" HTTP/1.1\r\nhost: ");
    text.append(host);
    text.append("\r\nconnection: close\r\n\r\n");
    text
}

/// A request that delivers a body.
pub fn post_request(path: &str, host: &str, body: &str) -> (r: String)
    ensures
        r@ == "POST "@ + path@ + " HTTP/1.1\r\nhost: "@ + host@
            + "\r\ncontent-type: application/json\r\ncontent-length: "@ + decimal_text(
            body.spec_bytes().len(),
        ) + "\r\nconnection: close\r\n\r\n"@ + body@,
{
    let length: usize = body.as_bytes().len();
    let mut text = String::from_str("POST ");
    text.append(path);
    text.append(" HTTP/1.1\r\nhost: ");
    text.append(host);
    text.append("\r\ncontent-type: application/json\r\ncontent-length: ");
    text.append(decimal(length as u64).as_str());
    text.append("\r\nconnection: close\r\n\r\n");
    text.append(body);
    text
}

/// The head of an answer reports success.
pub open spec fn reports_success(head: Seq<char>) -> bool {
    begins_with(head, "HTTP/1.1 200"@) || begins_with(head, "HTTP/1.1 201"@)
}

/// The body of an answer starts behind its first empty line.
pub open spec fn splits_at(response: Seq<char>, i: int) -> bool {
    occurs_at(response, "\r\n\r\n"@, i) && forall|j: int|
        0 <= j < i ==> !#[trigger] occurs_at(response, "\r\n\r\n"@, j)
}

/// The body of an answer, or what is wrong with the answer.
pub fn response_body(response: &str) -> (r: Result<String, String>)
    ensures
        !has_part(response@, "\r\n\r\n"@) ==> r is Err && r->Err_0@
            == "invalid gateway response: "@ + response@,
        forall|i: int| #[trigger]
            splits_at(response@, i) ==> {
                let head = response@.take(i);
                let body = response@.skip(i + 4);
                if reports_success(head) {
                    r is Ok && r->Ok_0@ == body
                } else {
                    r is Err && r->Err_0@ == "gateway returned error: "@ + body
                }
            },
{
    proof {
        reveal_strlit("\r\n\r\n");
    }
    let n: usize = response.unicode_len();
    let split: usize = match find_part(response, "\r\n\r\n") {
        Some(split) => split,
        None => {
            let mut text = String::from_str("invalid gateway response: ");
            text.append(response);
            proof {
                assert forall|i: int| #[trigger] splits_at(response@, i) implies false by {
                    assert(has_part(response@, "\r\n\r\n"@));
                }
            }
            return Err(text);
        },
    };
    proof {
        assert(occurs_at(response@, "\r\n\r\n"@, split as int));
        assert forall|i: int| #[trigger] splits_at(response@, i) implies i == split by {
            if i < split {
                assert(!occurs_at(response@, "\r\n\r\n"@, i));
            }
        }
    }
    let head = response.substring_char(0, split);
    let body = response.substring_char(split + 4, n);
    proof {
        assert(head@ =~= response@.take(split as int));
        assert(body@ =~= response@.skip(split + 4));
    }
    if !starts_with_part(head, "HTTP/1.1 200") && !starts_with_part(head, "HTTP/1.1 201") {
        let mut text = String::from_str("gateway returned error: ");
        text.append(body);
        return Err(text);
    }
    Ok(String::from_str(body))
}

} // verus!
