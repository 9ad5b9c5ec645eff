//! Batches of Packagist p2 metadata fetches: what each transfer's response
//! means, and how a batch's answers combine with what was cached.
use vstd::prelude::*;
use crate::json::{parse_json_bytes, serde_json_read_bytes};
use crate::registry::{
    p2_metadata, p2_url, parse_p2_response, registry_error_text, PackageMetadata,
    PackageVersionView, RegistryError, RegistryErrorView,
};
use crate::text::{chars_to_string, nat_chars, push_str, push_u32, str_chars};

verus! {

/// Errors of a metadata transfer.
#[derive(Debug)]
pub enum CurlMetadataError {
    /// A multi-handle operation failed.
    Multi(String),
    /// An easy-handle operation failed.
    Easy(String),
    /// The server answered with a status that is neither a success nor 404.
    HttpStatus { status: u32, url: String },
    /// The body could not be read as metadata.
    Parse { url: String, source: RegistryError },
}

pub enum CurlMetadataErrorView {
    Multi(Seq<char>),
    Easy(Seq<char>),
    HttpStatus { status: u32, url: Seq<char> },
    Parse { url: Seq<char>, source: RegistryErrorView },
}

impl View for CurlMetadataError {
    type V = CurlMetadataErrorView;

    open spec fn view(&self) -> CurlMetadataErrorView {
        match self {
            CurlMetadataError::Multi(m) => CurlMetadataErrorView::Multi(m@),
            CurlMetadataError::Easy(m) => CurlMetadataErrorView::Easy(m@),
            CurlMetadataError::HttpStatus { status, url } => CurlMetadataErrorView::HttpStatus { status: *status, url: url@ },
            CurlMetadataError::Parse { url, source } => CurlMetadataErrorView::Parse { url: url@, source: source@ },
        }
    }
}

/// The error as text.
pub open spec fn curl_metadata_error_text(e: CurlMetadataErrorView) -> Seq<char> {
    match e {
        CurlMetadataErrorView::Multi(m) => "curl multi error: "@ + m,
        CurlMetadataErrorView::Easy(m) => "curl easy error: "@ + m,
        CurlMetadataErrorView::HttpStatus { status, url } => "HTTP "@ + nat_chars(status as nat) + " for "@ + url,
        CurlMetadataErrorView::Parse { url, source } => "parse error for "@ + url + ": "@ + registry_error_text(source),
    }
}

/// The registry error a transfer error stands for: transport failures and
/// bad statuses are network errors; a parse failure is its own cause.
pub open spec fn registry_error_of(e: CurlMetadataErrorView) -> RegistryErrorView {
    match e {
        CurlMetadataErrorView::Multi(m) => RegistryErrorView::Network(m),
        CurlMetadataErrorView::Easy(m) => RegistryErrorView::Network(m),
        CurlMetadataErrorView::HttpStatus { status, url } => RegistryErrorView::Network(
            "HTTP "@ + nat_chars(status as nat) + " for "@ + url,
        ),
        CurlMetadataErrorView::Parse { url, source } => source,
    }
}

impl CurlMetadataError {
    /// The error as text.
    pub fn message(&self) -> (r: String)
        ensures
            r@ == curl_metadata_error_text(self@),
    {
        proof {
            reveal_strlit("curl multi error: ");
            reveal_strlit("curl easy error: ");
            reveal_strlit("HTTP ");
            reveal_strlit(" for ");
            reveal_strlit("parse error for ");
            reveal_strlit(": ");
        }
        let mut out: Vec<char> = Vec::new();
        match self {
            CurlMetadataError::Multi(m) => {
                push_str(&mut out, "curl multi error: ");
                push_str(&mut out, m.as_str());
            },
            CurlMetadataError::Easy(m) => {
                push_str(&mut out, "curl easy error: ");
                push_str(&mut out, m.as_str());
            },
            CurlMetadataError::HttpStatus { status, url } => {
                push_str(&mut out, "HTTP ");
                push_u32(&mut out, *status);
                push_str(&mut out, " for ");
                push_str(&mut out, url.as_str());
            },
            CurlMetadataError::Parse { url, source } => {
                push_str(&mut out, "parse error for ");
                push_str(&mut out, url.as_str());
                push_str(&mut out, ": ");
                let s = source.message();
                push_str(&mut out, s.as_str());
            },
        }
        chars_to_string(out.as_slice())
    }

    /// A copy of the error.
    pub fn copy(&self) -> (r: CurlMetadataError)
        ensures
            r@ == self@,
    {
        match self {
            CurlMetadataError::Multi(m) => CurlMetadataError::Multi(m.clone()),
            CurlMetadataError::Easy(m) => CurlMetadataError::Easy(m.clone()),
            CurlMetadataError::HttpStatus { status, url } => CurlMetadataError::HttpStatus { status: *status, url: url.clone() },
            CurlMetadataError::Parse { url, source } => CurlMetadataError::Parse { url: url.clone(), source: source.copy() },
        }
    }

    /// The registry error this transfer error stands for.
    pub fn into_registry_error(self) -> (r: RegistryError)
        ensures
            r@ == registry_error_of(self@),
    {
        proof {
            reveal_strlit("HTTP ");
            reveal_strlit(" for ");
        }
        match self {
            CurlMetadataError::Multi(m) => RegistryError::Network(m),
            CurlMetadataError::Easy(m) => RegistryError::Network(m),
            CurlMetadataError::HttpStatus { status, url } => {
                let mut out: Vec<char> = Vec::new();
                push_str(&mut out, "HTTP ");
                push_u32(&mut out, status);
                push_str(&mut out, " for ");
                push_str(&mut out, url.as_str());
                RegistryError::Network(chars_to_string(out.as_slice()))
            },
            CurlMetadataError::Parse { url, source } => source,
        }
    }
}

/// What one transfer gave: the response code (or the text of the error
/// reading it) and the body.
pub struct MetadataResponse {
    pub code: Result<u32, String>,
    pub body: Vec<u8>,
}

pub open spec fn code_view(c: Result<u32, String>) -> Result<u32, Seq<char>> {
    match c {
        Ok(s) => Ok(s),
        Err(m) => Err(m@),
    }
}

pub open spec fn curl_result_view(r: Result<PackageMetadata, CurlMetadataError>) -> Result<Seq<PackageVersionView>, CurlMetadataErrorView> {
    match r {
        Ok(m) => Ok(m@),
        Err(e) => Err(e@),
    }
}

/// What the response to the p2 request for `key` means. 404 means the
/// package does not exist; a status in 200..400 carries a body that is read
/// as p2 metadata; any other status is an error naming the URL.
pub open spec fn response_outcome(base: Seq<char>, key: Seq<char>, code: Result<u32, Seq<char>>, body: Seq<u8>) -> Result<Seq<PackageVersionView>, CurlMetadataErrorView> {
    let url = base + "/p2/"@ + key + ".json"@;
    match code {
        Err(m) => Err(CurlMetadataErrorView::Easy(m)),
        Ok(status) => if status == 404 {
            Err(CurlMetadataErrorView::Parse { url, source: RegistryErrorView::NotFound(key) })
        } else if 200 <= status < 400 {
            match serde_json_read_bytes(body) {
                Err(m) => Err(CurlMetadataErrorView::Parse { url, source: RegistryErrorView::Parse(m) }),
                Ok(j) => match p2_metadata(key, j) {
                    Ok(vs) => Ok(vs),
                    Err(e) => Err(CurlMetadataErrorView::Parse { url, source: e }),
                },
            }
        } else {
            Err(CurlMetadataErrorView::HttpStatus { status, url })
        },
    }
}

/// The metadata of `key` from the response to its p2 request at `base_url`.
pub fn metadata_from_response(base_url: &str, key: &str, response: &MetadataResponse) -> (r: Result<PackageMetadata, CurlMetadataError>)
    ensures
        curl_result_view(r) == response_outcome(base_url@, key@, code_view(response.code), response.body@),
{
    let url = p2_url(base_url, key);
    match &response.code {
        Err(m) => Err(CurlMetadataError::Easy(m.clone())),
        Ok(status) => {
            let s: u32 = *status;
            if s == 404 {
                let k = str_chars(key);
                Err(CurlMetadataError::Parse { url, source: RegistryError::NotFound(chars_to_string(k.as_slice())) })
            } else if 200 <= s && s < 400 {
                match parse_json_bytes(response.body.as_slice()) {
                    Err(m) => Err(CurlMetadataError::Parse { url, source: RegistryError::Parse(m) }),
                    Ok(j) => match parse_p2_response(key, &j) {
                        Ok(meta) => Ok(meta),
                        Err(e) => Err(CurlMetadataError::Parse { url, source: e }),
                    },
                }
            } else {
                Err(CurlMetadataError::HttpStatus { status: s, url })
            }
        },
    }
}

/// The results of a batch of p2 metadata transfers, one per key and in the
/// keys' order, from the responses the transfers gave.
pub fn fetch_batch(base_url: &str, package_keys: &Vec<String>, responses: &Vec<MetadataResponse>) -> (r: Vec<Result<PackageMetadata, CurlMetadataError>>)
    requires
        responses.len() == package_keys.len(),
    ensures
        r.len() == package_keys.len(),
        forall|i: int| 0 <= i < r.len() ==> curl_result_view(#[trigger] r@[i]) == response_outcome(
            base_url@,
            package_keys@[i]@,
            code_view(responses@[i].code),
            responses@[i].body@,
        ),
{
    let mut out: Vec<Result<PackageMetadata, CurlMetadataError>> = Vec::new();
    let mut i: usize = 0;
    while i < package_keys.len()
        invariant
            i <= package_keys.len(),
            responses.len() == package_keys.len(),
            out.len() == i,
            forall|q: int| 0 <= q < i ==> curl_result_view(#[trigger] out@[q]) == response_outcome(
                base_url@,
                package_keys@[q]@,
                code_view(responses@[q].code),
                responses@[q].body@,
            ),
        decreases package_keys.len() - i,
    {
        let r = metadata_from_response(base_url, package_keys[i].as_str(), &responses[i]);
        out.push(r);
        i += 1;
    }
    out
}

// ---------------------------------------------------------------------------
// Combining a batch with the cache
// ---------------------------------------------------------------------------

/// The positions, in order, that the cache has nothing for.
pub open spec fn missing_positions<A>(c: Seq<Option<A>>) -> Seq<int>
    decreases c.len(),
{
    if c.len() == 0 {
        Seq::empty()
    } else {
        let p = missing_positions(c.drop_last());
        if c.last() is None { p.push(c.len() - 1) } else { p }
    }
}

proof fn lemma_missing_step<A>(c: Seq<Option<A>>, i: int)
    requires
        0 <= i < c.len(),
    ensures
        missing_positions(c.take(i + 1)) == if c[i] is None {
            missing_positions(c.take(i)).push(i)
        } else {
            missing_positions(c.take(i))
        },
{
    assert(c.take(i + 1).drop_last() =~= c.take(i));
}

proof fn lemma_missing_mono<A>(c: Seq<Option<A>>, a: int)
    requires
        0 <= a <= c.len(),
    ensures
        missing_positions(c.take(a)).len() <= missing_positions(c).len(),
        a < c.len() && c[a] is None ==> missing_positions(c.take(a)).len() < missing_positions(c).len(),
    decreases c.len() - a,
{
    if a == c.len() {
        assert(c.take(a) =~= c);
    } else {
        lemma_missing_step(c, a);
        lemma_missing_mono(c, a + 1);
    }
}

/// The keys, with their positions, that the cache has nothing for.
pub fn missing_keys(keys: &Vec<String>, cached: &Vec<Option<PackageMetadata>>) -> (r: Vec<(usize, String)>)
    requires
        cached.len() == keys.len(),
    ensures
        r.len() == missing_positions(cached@).len(),
        forall|j: int| 0 <= j < r.len() ==> (#[trigger] r@[j]).0 == missing_positions(cached@)[j] && r@[j].1@ == keys@[r@[j].0 as int]@,
{
    let mut out: Vec<(usize, String)> = Vec::new();
    let mut i: usize = 0;
    assert(cached@.take(0) =~= Seq::<Option<PackageMetadata>>::empty());
    while i < keys.len()
        invariant
            i <= keys.len(),
            cached.len() == keys.len(),
            out.len() == missing_positions(cached@.take(i as int)).len(),
            forall|j: int| 0 <= j < out.len() ==> (#[trigger] out@[j]).0 == missing_positions(cached@.take(i as int))[j] && out@[j].1@ == keys@[out@[j].0 as int]@,
        decreases keys.len() - i,
    {
        proof { lemma_missing_step(cached@, i as int); }
        if cached[i].is_none() {
            out.push((i, keys[i].clone()));
        }
        i += 1;
    }
    assert(cached@.take(keys.len() as int) =~= cached@);
    out
}

/// What the batch answers at position `i`: the cached metadata, else the
/// fetched metadata, else the registry error the fetch's own error stands
/// for (a 404 is `NotFound` of the key).
pub open spec fn batch_slot(
    keys: Seq<String>,
    cached: Seq<Option<PackageMetadata>>,
    fetched: Seq<Result<PackageMetadata, CurlMetadataError>>,
    i: int,
) -> Result<Seq<PackageVersionView>, RegistryErrorView> {
    match cached[i] {
        Some(m) => Ok(m@),
        None => match fetched[missing_positions(cached.take(i)).len() as int] {
            Ok(m) => Ok(m@),
            Err(e) => Err(registry_error_of(e@)),
        },
    }
}

/// What the batch puts in the cache from its first `n` positions: each key
/// that was fetched successfully, with its metadata, in order.
pub open spec fn batch_writes(
    keys: Seq<String>,
    cached: Seq<Option<PackageMetadata>>,
    fetched: Seq<Result<PackageMetadata, CurlMetadataError>>,
    n: int,
) -> Seq<(Seq<char>, Seq<PackageVersionView>)>
    decreases n,
{
    if n <= 0 {
        Seq::empty()
    } else {
        let w = batch_writes(keys, cached, fetched, n - 1);
        let i = n - 1;
        if cached[i] is None {
            match fetched[missing_positions(cached.take(i)).len() as int] {
                Ok(m) => w.push((keys[i]@, m@)),
                Err(_) => w,
            }
        } else {
            w
        }
    }
}

pub open spec fn writes_view(w: Seq<(String, PackageMetadata)>) -> Seq<(Seq<char>, Seq<PackageVersionView>)> {
    w.map_values(|p: (String, PackageMetadata)| (p.0@, p.1@))
}

/// Combines what the cache held for `keys` with the results fetched for
/// the keys it did not hold (in the order `missing_keys` gives them): the
/// answer for every key, in order, and the entries to add to the cache.
pub fn batch_outcome(
    keys: &Vec<String>,
    cached: &Vec<Option<PackageMetadata>>,
    fetched: &Vec<Result<PackageMetadata, CurlMetadataError>>,
) -> (r: (Vec<Result<PackageMetadata, RegistryError>>, Vec<(String, PackageMetadata)>))
    requires
        cached.len() == keys.len(),
        fetched.len() == missing_positions(cached@).len(),
    ensures
        r.0.len() == keys.len(),
        forall|i: int| 0 <= i < keys.len() ==> crate::registry::metadata_result_view(#[trigger] r.0@[i]) == batch_slot(keys@, cached@, fetched@, i),
        writes_view(r.1@) == batch_writes(keys@, cached@, fetched@, keys.len() as int),
{
    let mut results: Vec<Result<PackageMetadata, RegistryError>> = Vec::new();
    let mut writes: Vec<(String, PackageMetadata)> = Vec::new();
    let mut i: usize = 0;
    let mut j: usize = 0;
    assert(cached@.take(0) =~= Seq::<Option<PackageMetadata>>::empty());
    assert(writes_view(writes@) =~= Seq::<(Seq<char>, Seq<PackageVersionView>)>::empty());
    while i < keys.len()
        invariant
            i <= keys.len(),
            cached.len() == keys.len(),
            fetched.len() == missing_positions(cached@).len(),
            j == missing_positions(cached@.take(i as int)).len(),
            results.len() == i,
            forall|q: int| 0 <= q < i ==> crate::registry::metadata_result_view(#[trigger] results@[q]) == batch_slot(keys@, cached@, fetched@, q),
            writes_view(writes@) == batch_writes(keys@, cached@, fetched@, i as int),
        decreases keys.len() - i,
    {
        proof {
            lemma_missing_step(cached@, i as int);
            lemma_missing_mono(cached@, i as int);
        }
        let ghost before = writes_view(writes@);
        match &cached[i] {
            Some(m) => {
                results.push(Ok(m.copy()));
            },
            None => {
                match &fetched[j] {
                    Ok(m) => {
                        results.push(Ok(m.copy()));
                        writes.push((keys[i].clone(), m.copy()));
                        assert(writes_view(writes@) =~= before.push((keys@[i as int]@, m@)));
                    },
                    Err(e) => {
                        results.push(Err(e.copy().into_registry_error()));
                    },
                }
                j += 1;
            },
        }
        i += 1;
    }
    (results, writes)
}

} // verus!
