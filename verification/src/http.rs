//! The HTTP protocol client: URL construction, status-code
//! interpretation, and the aggregation policy of the concurrent batch
//! operations.
//!
//! The caller that owns the transport issues one HTTP request per
//! logical operation and hands each response's status (and body, where
//! one matters) back to the interpreter methods here. The batch methods
//! take the per-key outcomes, in request order, and aggregate them:
//! a batch read keeps partial results, a batch write surfaces the first
//! failure.

use vstd::prelude::*;
use vstd::slice::slice_to_vec;

use crate::error::VaultError;

verus! {

/// The byte the URL path separator, `/`, encodes to.
pub const SLASH: u8 = 0x2F;

/// The base URL with every trailing slash removed.
pub open spec fn spec_trim_base_url(url: Seq<u8>) -> Seq<u8>
    decreases url.len(),
{
    if url.len() > 0 && url.last() == SLASH {
        spec_trim_base_url(url.drop_last())
    } else {
        url
    }
}

/// What a Get reads from a response: status 200 is the present body,
/// 404 is the absent signal (not an error), anything else is the
/// server's status.
pub open spec fn spec_http_get(status: u16, body: Seq<u8>) -> Result<Option<Seq<u8>>, VaultError> {
    if status == 200 {
        Ok(Some(body))
    } else if status == 404 {
        Ok(None)
    } else {
        Err(VaultError::Server(status))
    }
}

/// What a Set or Delete reads from a response: any 2xx status is
/// success, anything else is the server's status.
pub open spec fn spec_http_write(status: u16) -> Result<(), VaultError> {
    if 200 <= status < 300 {
        Ok(())
    } else {
        Err(VaultError::Server(status))
    }
}

/// A per-key Get outcome, with the body seen as a byte sequence.
pub open spec fn spec_get_outcome(
    outcome: Result<Option<Vec<u8>>, VaultError>,
) -> Result<Option<Seq<u8>>, VaultError> {
    match outcome {
        Ok(Some(v)) => Ok(Some(v@)),
        Ok(None) => Ok(None),
        Err(e) => Err(e),
    }
}

/// The per-key Get outcomes of a batch read, each seen as a byte
/// sequence.
pub open spec fn spec_get_outcomes(
    outcomes: Seq<Result<Option<Vec<u8>>, VaultError>>,
) -> Seq<Result<Option<Seq<u8>>, VaultError>> {
    outcomes.map_values(|outcome: Result<Option<Vec<u8>>, VaultError>| spec_get_outcome(outcome))
}

/// The batch result set of a batch read: the key/value pairs of the
/// requested keys whose Get resolved to a present value, in request
/// order. A failed or absent key contributes nothing.
pub open spec fn spec_mget(
    keys: Seq<Seq<u8>>,
    outcomes: Seq<Result<Option<Seq<u8>>, VaultError>>,
) -> Seq<(Seq<u8>, Seq<u8>)>
    recommends
        keys.len() == outcomes.len(),
    decreases outcomes.len(),
{
    if outcomes.len() == 0 {
        Seq::empty()
    } else {
        let prefix = spec_mget(keys.drop_last(), outcomes.drop_last());
        match outcomes.last() {
            Ok(Some(v)) => prefix.push((keys[outcomes.len() - 1], v)),
            _ => prefix,
        }
    }
}

/// The outcome of a batch write: success when every member write
/// succeeded, otherwise the first error in request order.
pub open spec fn spec_mset(outcomes: Seq<Result<(), VaultError>>) -> Result<(), VaultError>
    decreases outcomes.len(),
{
    if outcomes.len() == 0 {
        Ok(())
    } else {
        match outcomes[0] {
            Err(e) => Err(e),
            Ok(_) => spec_mset(outcomes.drop_first()),
        }
    }
}

/// The HTTP client configuration: the normalized base URL and the
/// optional credential attached, as a header, to every write request.
pub struct MiniVault {
    base_url: Vec<u8>,
    api_key: Option<Vec<u8>>,
}

impl MiniVault {
    /// The normalized base URL.
    pub closed spec fn spec_base_url(&self) -> Seq<u8> {
        self.base_url@
    }

    /// The configured credential.
    pub closed spec fn spec_credential(&self) -> Option<Seq<u8>> {
        match self.api_key {
            Some(ref k) => Some(k@),
            None => None,
        }
    }

    /// Builds a client for the given base URL, normalized once here by
    /// stripping every trailing slash, holding the credential (if any)
    /// for its whole lifetime.
    pub fn new(base_url: Vec<u8>, api_key: Option<Vec<u8>>) -> (client: Self)
        ensures
            client.spec_base_url() == spec_trim_base_url(base_url@),
            client.spec_credential() == (match api_key {
                Some(k) => Some(k@),
                None => None::<Seq<u8>>,
            }),
    {
        let mut url = base_url;
        while url.len() > 0 && url[url.len() - 1] == SLASH
            invariant
                spec_trim_base_url(url@) == spec_trim_base_url(base_url@),
            decreases url.len(),
        {
            proof {
                assert(url@.drop_last() =~= url@.subrange(0, url@.len() - 1));
            }
            url.pop();
        }
        MiniVault { base_url: url, api_key }
    }

    /// The normalized base URL, for the caller's transport.
    pub fn base_url(&self) -> (url: &Vec<u8>)
        ensures
            url@ == self.spec_base_url(),
    {
        &self.base_url
    }

    /// The credential to attach as a header to write requests, if one is
    /// configured.
    pub fn api_key(&self) -> (key: &Option<Vec<u8>>)
        ensures
            key.deep_view() == self.spec_credential(),
    {
        proof {
            match self.api_key {
                Some(ref k) => {
                    assert(k.deep_view() =~= k@);
                },
                None => {},
            }
        }
        &self.api_key
    }

    /// The URL of the single-key operations on a key: the base URL, a
    /// slash, and the key.
    pub fn request_url(&self, key: &[u8]) -> (url: Vec<u8>)
        ensures
            url@ == self.spec_base_url() + seq![SLASH] + key@,
    {
        let mut url = self.base_url.clone();
        url.push(SLASH);
        let mut key_bytes = slice_to_vec(key);
        url.append(&mut key_bytes);
        proof {
            assert(url@ =~= self.spec_base_url() + seq![SLASH] + key@);
        }
        url
    }

    /// The URL of the health report: the base URL and the ASCII path
    /// "/health".
    pub fn health_url(&self) -> (url: Vec<u8>)
        ensures
            url@ == self.spec_base_url() + spec_health_path(),
    {
        let mut url = self.base_url.clone();
        url.push(SLASH);
        url.push(104);
        url.push(101);
        url.push(97);
        url.push(108);
        url.push(116);
        url.push(104);
        proof {
            assert(url@ =~= self.spec_base_url() + spec_health_path());
        }
        url
    }

    /// Reads a Get response: the body on status 200, the absent signal
    /// on 404, and the server's status on anything else.
    pub fn get(&self, status: u16, body: Vec<u8>) -> (r: Result<Option<Vec<u8>>, VaultError>)
        ensures
            spec_get_outcome(r) == spec_http_get(status, body@),
    {
        if status == 200 {
            Ok(Some(body))
        } else if status == 404 {
            Ok(None)
        } else {
            Err(VaultError::Server(status))
        }
    }

    /// Reads a Set response: success on any 2xx status, the server's
    /// status on anything else.
    pub fn set(&self, status: u16) -> (r: Result<(), VaultError>)
        ensures
            r == spec_http_write(status),
    {
        if 200 <= status && status < 300 {
            Ok(())
        } else {
            Err(VaultError::Server(status))
        }
    }

    /// Reads a Delete response: the same convention as a Set response.
    pub fn delete(&self, status: u16) -> (r: Result<(), VaultError>)
        ensures
            r == spec_http_write(status),
    {
        if 200 <= status && status < 300 {
            Ok(())
        } else {
            Err(VaultError::Server(status))
        }
    }

    /// Whether a Get response carries a present value: true on 200,
    /// false on the absent signal 404, the server's status otherwise.
    pub fn key_exists(&self, status: u16) -> (r: Result<bool, VaultError>)
        ensures
            status == 200 ==> r == Ok::<bool, VaultError>(true),
            status == 404 ==> r == Ok::<bool, VaultError>(false),
            status != 200 && status != 404 ==> r == Err::<bool, VaultError>(
                VaultError::Server(status),
            ),
    {
        if status == 200 {
            Ok(true)
        } else if status == 404 {
            Ok(false)
        } else {
            Err(VaultError::Server(status))
        }
    }

    /// Reads a health response: the raw body of any 2xx response, for
    /// the caller to decode as the JSON health snapshot, and the
    /// server's status on anything else.
    pub fn health(&self, status: u16, body: Vec<u8>) -> (r: Result<Vec<u8>, VaultError>)
        ensures
            200 <= status < 300 ==> (r matches Ok(b) && b@ == body@),
            !(200 <= status < 300) ==> r == Err::<Vec<u8>, VaultError>(VaultError::Server(status)),
    {
        if 200 <= status && status < 300 {
            Ok(body)
        } else {
            Err(VaultError::Server(status))
        }
    }

    /// Aggregates a batch read from the per-key outcomes, in request
    /// order: only the keys whose Get resolved to a present value appear
    /// in the result; a failed or absent member is silently excluded,
    /// never an error for the whole batch.
    pub fn mget(
        &self,
        keys: &Vec<Vec<u8>>,
        outcomes: &Vec<Result<Option<Vec<u8>>, VaultError>>,
    ) -> (results: Vec<(Vec<u8>, Vec<u8>)>)
        requires
            keys@.len() == outcomes@.len(),
        ensures
            results.deep_view() == spec_mget(keys.deep_view(), spec_get_outcomes(outcomes@)),
    {
        let ghost all_keys = keys.deep_view();
        let ghost all_outcomes = spec_get_outcomes(outcomes@);
        let mut results: Vec<(Vec<u8>, Vec<u8>)> = Vec::new();
        let mut i: usize = 0;
        while i < keys.len()
            invariant
                keys@.len() == outcomes@.len(),
                i <= keys@.len(),
                all_keys == keys.deep_view(),
                all_outcomes == spec_get_outcomes(outcomes@),
                results.deep_view() == spec_mget(
                    all_keys.take(i as int),
                    all_outcomes.take(i as int),
                ),
            decreases keys@.len() - i,
        {
            match &outcomes[i] {
                Ok(Some(v)) => {
                    let pair = (keys[i].clone(), v.clone());
                    proof {
                        assert(pair.deep_view() == (all_keys[i as int], all_outcomes[i as int]->Ok_0->Some_0))
                            by {
                            assert(keys[i as int].deep_view() =~= keys[i as int]@);
                            assert(v.deep_view() =~= v@);
                        }
                    }
                    results.push(pair);
                },
                _ => {},
            }
            proof {
                let n = i + 1 as int;
                assert(all_keys.take(n).drop_last() =~= all_keys.take(i as int));
                assert(all_outcomes.take(n).drop_last() =~= all_outcomes.take(i as int));
                assert(all_outcomes.take(n).last() == all_outcomes[i as int]);
                assert(results.deep_view() =~= spec_mget(all_keys.take(n), all_outcomes.take(n)));
            }
            i += 1;
        }
        proof {
            assert(all_keys.take(keys@.len() as int) =~= all_keys);
            assert(all_outcomes.take(keys@.len() as int) =~= all_outcomes);
        }
        results
    }

    /// Aggregates a batch write from the per-entry outcomes, in request
    /// order: success only when every member write succeeded, otherwise
    /// the first error — a failed member is surfaced, never swallowed.
    pub fn mset(&self, outcomes: &Vec<Result<(), VaultError>>) -> (r: Result<(), VaultError>)
        ensures
            r == spec_mset(outcomes@),
    {
        let mut i: usize = 0;
        proof {
            assert(outcomes@.skip(0) =~= outcomes@);
        }
        while i < outcomes.len()
            invariant
                i <= outcomes@.len(),
                spec_mset(outcomes@) == spec_mset(outcomes@.skip(i as int)),
            decreases outcomes@.len() - i,
        {
            match outcomes[i] {
                Err(e) => {
                    return Err(e);
                },
                Ok(_) => {},
            }
            proof {
                assert(outcomes@.skip(i as int).drop_first() =~= outcomes@.skip(i + 1));
            }
            i += 1;
        }
        Ok(())
    }
}

/// The ASCII bytes of "/health", the path of the health report.
pub open spec fn spec_health_path() -> Seq<u8> {
    seq![SLASH, 104u8, 101u8, 97u8, 108u8, 116u8, 104u8]
}

/// The batch result set contains exactly the requested keys whose Get
/// resolved to a present value, each paired with that value: every such
/// member appears, and every pair in the result comes from such a
/// member. A key whose Get failed or found nothing is absent from the
/// result, not mapped to an error or an empty value.
pub proof fn lemma_mget_membership(
    keys: Seq<Seq<u8>>,
    outcomes: Seq<Result<Option<Seq<u8>>, VaultError>>,
)
    requires
        keys.len() == outcomes.len(),
    ensures
        forall|i: int|
            #![trigger outcomes[i]]
            0 <= i < outcomes.len() ==> (outcomes[i] matches Ok(Some(v)) ==> spec_mget(
                keys,
                outcomes,
            ).contains((keys[i], v))),
        forall|p: (Seq<u8>, Seq<u8>)|
            #![trigger spec_mget(keys, outcomes).contains(p)]
            spec_mget(keys, outcomes).contains(p) ==> exists|i: int|
                0 <= i < outcomes.len() && keys[i] == p.0 && outcomes[i] == Ok::<
                    Option<Seq<u8>>,
                    VaultError,
                >(Some(p.1)),
    decreases outcomes.len(),
{
    if outcomes.len() > 0 {
        let n = outcomes.len() as int;
        let key_prefix = keys.drop_last();
        let outcome_prefix = outcomes.drop_last();
        lemma_mget_membership(key_prefix, outcome_prefix);
        let prefix = spec_mget(key_prefix, outcome_prefix);
        let whole = spec_mget(keys, outcomes);
        assert forall|p: (Seq<u8>, Seq<u8>)| prefix.contains(p) implies whole.contains(p) by {
            let j = choose|j: int| 0 <= j < prefix.len() && prefix[j] == p;
            assert(whole[j] == p);
        }
        assert forall|i: int|
            #![trigger outcomes[i]]
            0 <= i < n implies (outcomes[i] matches Ok(Some(v)) ==> whole.contains(
            (keys[i], v),
        )) by {
            match outcomes[i] {
                Ok(Some(v)) => {
                    if i < n - 1 {
                        assert(outcome_prefix[i] == outcomes[i]);
                        assert(prefix.contains((key_prefix[i], v)));
                    } else {
                        assert(whole.last() == (keys[i], v));
                    }
                },
                _ => {},
            }
        }
        assert forall|p: (Seq<u8>, Seq<u8>)| whole.contains(p) implies exists|i: int|
            0 <= i < n && keys[i] == p.0 && outcomes[i] == Ok::<Option<Seq<u8>>, VaultError>(
                Some(p.1),
            ) by {
            let j = choose|j: int| 0 <= j < whole.len() && whole[j] == p;
            if j < prefix.len() {
                assert(prefix[j] == p);
                assert(prefix.contains(p));
                let i = choose|i: int|
                    0 <= i < outcome_prefix.len() && key_prefix[i] == p.0 && outcome_prefix[i]
                        == Ok::<Option<Seq<u8>>, VaultError>(Some(p.1));
                assert(keys[i] == p.0 && outcomes[i] == Ok::<Option<Seq<u8>>, VaultError>(
                    Some(p.1),
                ));
            } else {
                match outcomes.last() {
                    Ok(Some(v)) => {
                        assert(p == (keys[n - 1], v));
                        assert(keys[n - 1] == p.0 && outcomes[n - 1] == Ok::<
                            Option<Seq<u8>>,
                            VaultError,
                        >(Some(p.1)));
                    },
                    _ => {},
                }
            }
        }
    }
}

/// Over HTTP a present value round-trips exactly, a zero-length value
/// included: a 200 reply with body v reads as present v; a 404 reads as
/// the absent signal, never an error; and any 2xx reply to a write reads
/// as success.
pub proof fn lemma_http_round_trip(body: Seq<u8>, status: u16)
    ensures
        spec_http_get(200, body) == Ok::<Option<Seq<u8>>, VaultError>(Some(body)),
        spec_http_get(404, body) == Ok::<Option<Seq<u8>>, VaultError>(None),
        200 <= status < 300 ==> spec_http_write(status) == Ok::<(), VaultError>(()),
{
}

/// Normalization strips every trailing slash and nothing else: the
/// normalized base URL is a prefix of the given one, it does not end in
/// a slash, and every byte stripped was a slash.
pub proof fn lemma_trim_base_url_normalized(url: Seq<u8>)
    ensures
        spec_trim_base_url(url).len() <= url.len(),
        spec_trim_base_url(url) == url.subrange(0, spec_trim_base_url(url).len() as int),
        spec_trim_base_url(url).len() == 0 || spec_trim_base_url(url).last() != SLASH,
        forall|i: int|
            spec_trim_base_url(url).len() <= i < url.len() ==> #[trigger] url[i] == SLASH,
    decreases url.len(),
{
    let trimmed = spec_trim_base_url(url);
    if url.len() > 0 && url.last() == SLASH {
        lemma_trim_base_url_normalized(url.drop_last());
        assert(url.drop_last().subrange(0, trimmed.len() as int) =~= url.subrange(
            0,
            trimmed.len() as int,
        ));
        assert forall|i: int| trimmed.len() <= i < url.len() implies #[trigger] url[i]
            == SLASH by {
            if i < url.len() - 1 {
                assert(url.drop_last()[i] == SLASH);
            }
        }
    } else {
        assert(trimmed =~= url.subrange(0, url.len() as int));
    }
}

/// A batch write succeeds exactly when every member write succeeded;
/// otherwise it surfaces the error of the first member that failed, in
/// request order, every earlier member having succeeded.
pub proof fn lemma_mset_first_error(outcomes: Seq<Result<(), VaultError>>)
    ensures
        spec_mset(outcomes) is Ok <==> (forall|i: int|
            0 <= i < outcomes.len() ==> #[trigger] outcomes[i] is Ok),
        spec_mset(outcomes) matches Err(e) ==> exists|i: int|
            {
                &&& 0 <= i < outcomes.len()
                &&& #[trigger] outcomes[i] == Err::<(), VaultError>(e)
                &&& forall|j: int| 0 <= j < i ==> #[trigger] outcomes[j] is Ok
            },
    decreases outcomes.len(),
{
    if outcomes.len() > 0 {
        let rest = outcomes.drop_first();
        lemma_mset_first_error(rest);
        match outcomes[0] {
            Err(e) => {
                assert(outcomes[0] == Err::<(), VaultError>(e));
                assert(forall|j: int| 0 <= j < 0 ==> #[trigger] outcomes[j] is Ok);
            },
            Ok(_) => {
                assert(forall|i: int| 0 <= i < rest.len() ==> rest[i] == outcomes[i + 1]);
                if spec_mset(outcomes) is Ok {
                    assert forall|i: int| 0 <= i < outcomes.len() implies #[trigger] outcomes[i]
                        is Ok by {
                        if i > 0 {
                            assert(rest[i - 1] is Ok);
                        }
                    }
                } else {
                    let e = spec_mset(outcomes)->Err_0;
                    let i = choose|i: int|
                        0 <= i < rest.len() && #[trigger] rest[i] == Err::<(), VaultError>(e) && (
                        forall|j: int| 0 <= j < i ==> #[trigger] rest[j] is Ok);
                    assert(outcomes[i + 1] == Err::<(), VaultError>(e));
                    assert forall|j: int| 0 <= j < i + 1 implies #[trigger] outcomes[j] is Ok by {
                        if j > 0 {
                            assert(rest[j - 1] is Ok);
                        }
                    }
                }
            },
        }
        if spec_mset(outcomes) is Ok {
            assert(outcomes[0] is Ok);
        }
    }
}

} // verus!
