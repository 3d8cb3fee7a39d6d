//! The image-search collaborator's data shapes and the derivation of its
//! request URLs. The HTTP calls themselves are the caller's side; this
//! module owns what can be computed from plain values: the search URL for
//! a query and the static image URL of one photo.

use vstd::prelude::*;

use crate::text::{dec_spec, fmt_u128};

verus! {

/// The search response envelope.
pub struct PhotosPayload {
    pub photos: Photos,
}

/// The page of photos inside a search response.
pub struct Photos {
    pub photo: Vec<SimplePhoto>,
}

/// One photo of a search result, with the fields that address its static
/// image.
pub struct SimplePhoto {
    pub id: String,
    pub owner: String,
    pub title: String,
    pub farm: u64,
    pub server: String,
    pub secret: String,
}

/// The search request URL for a query: the fixed endpoint and options
/// around the key and the query text, both inserted verbatim.
pub open spec fn search_url_of(api_key: Seq<char>, query: Seq<char>) -> Seq<char> {
    "https://www.flickr.com/services/rest/?method=flickr.photos.search&api_key="@ + api_key
        + "&text="@ + query
        + "&sort=relevance&per_page=10&media=photos&format=json&nojsoncallback=1"@
}

/// Derive the search request URL for a query.
pub fn search_url(api_key: &str, query: &str) -> (r: String)
    ensures
        r@ == search_url_of(api_key@, query@),
{
    let mut out = String::from_str(
        "https://www.flickr.com/services/rest/?method=flickr.photos.search&api_key=",
    );
    out.append(api_key);
    out.append("&text=");
    out.append(query);
    out.append("&sort=relevance&per_page=10&media=photos&format=json&nojsoncallback=1");
    proof {
        assert(out@ =~= search_url_of(api_key@, query@));
    }
    out
}

/// The static image URL of one photo: farm number, server, id and secret
/// in their fixed places.
pub open spec fn image_url_of(p: &SimplePhoto) -> Seq<char> {
    "https://farm"@ + dec_spec(p.farm as nat) + ".static.flickr.com/"@ + p.server@ + "/"@ + p.id@
        + "_"@ + p.secret@ + ".jpg"@
}

/// Derive the static image URL of one photo.
pub fn image_url(p: &SimplePhoto) -> (r: String)
    ensures
        r@ == image_url_of(p),
{
    let mut out = String::from_str("https://farm");
    let farm = fmt_u128(p.farm as u128);
    out.append(farm.as_str());
    out.append(".static.flickr.com/");
    out.append(p.server.as_str());
    out.append("/");
    out.append(p.id.as_str());
    out.append("_");
    out.append(p.secret.as_str());
    out.append(".jpg");
    proof {
        assert(out@ =~= image_url_of(p));
    }
    out
}

} // verus!
