//! What holds of the client's requests and replies: where a request goes, what
//! it says, and how a reply that brings nothing is reported.

use crate::error::ErrorView;
use crate::openai_client::{failure_of, without_slashes, OpenAiClient, Reply};
use vstd::prelude::*;

verus! {

/// What is left of an endpoint is the endpoint up to its last character that
/// is not a slash: only slashes are taken off, and all of those at the end.
pub proof fn law_only_trailing_slashes_are_taken_off(endpoint: Seq<char>)
    ensures
        without_slashes(endpoint).len() <= endpoint.len(),
        without_slashes(endpoint) == endpoint.take(without_slashes(endpoint).len() as int),
        forall|i: int|
            without_slashes(endpoint).len() <= i < endpoint.len() ==> #[trigger] endpoint[i] == '/',
        forall|i: int|
            0 <= i < endpoint.len() && #[trigger] endpoint[i] != '/' ==> i < without_slashes(
                endpoint,
            ).len(),
        without_slashes(endpoint).len() > 0 ==> without_slashes(endpoint).last() != '/',
    decreases endpoint.len(),
{
    if endpoint.len() > 0 && endpoint.last() == '/' {
        let shorter = endpoint.drop_last();
        law_only_trailing_slashes_are_taken_off(shorter);
        let kept = without_slashes(shorter).len() as int;
        assert(shorter.take(kept) =~= endpoint.take(kept));
        assert forall|i: int| kept <= i < endpoint.len() implies #[trigger] endpoint[i] == '/' by {
            if i < shorter.len() {
                assert(shorter[i] == endpoint[i]);
            }
        }
    } else {
        assert(endpoint.take(endpoint.len() as int) =~= endpoint);
    }
}

/// Requests go to the fixed paths below their endpoints, however many slashes
/// the endpoint is written with, and each kind to its own endpoint.
pub proof fn law_requests_go_below_their_endpoints(
    client: OpenAiClient,
    embed_base: Seq<char>,
    llm_base: Seq<char>,
    slashes: Seq<char>,
)
    requires
        embed_base.len() == 0 || embed_base.last() != '/',
        llm_base.len() == 0 || llm_base.last() != '/',
        forall|i: int| 0 <= i < slashes.len() ==> #[trigger] slashes[i] == '/',
    ensures
        client.embed_endpoint@ == embed_base + slashes ==> client.embed_url() == embed_base
            + seq!['/', 'e', 'm', 'b', 'e', 'd', 'd', 'i', 'n', 'g', 's'],
        client.llm_endpoint@ == llm_base + slashes ==> client.chat_url() == llm_base + seq![
            '/', 'c', 'h', 'a', 't', '/', 'c', 'o', 'm', 'p', 'l', 'e', 't', 'i', 'o', 'n', 's',
        ],
{
    reveal_strlit("/embeddings");
    reveal_strlit("/chat/completions");
    assert("/embeddings"@ =~= seq!['/', 'e', 'm', 'b', 'e', 'd', 'd', 'i', 'n', 'g', 's']);
    assert("/chat/completions"@ =~= seq![
        '/', 'c', 'h', 'a', 't', '/', 'c', 'o', 'm', 'p', 'l', 'e', 't', 'i', 'o', 'n', 's',
    ]);
    lemma_slashes_are_taken_off(embed_base, slashes);
    lemma_slashes_are_taken_off(llm_base, slashes);
}

proof fn lemma_slashes_are_taken_off(base: Seq<char>, slashes: Seq<char>)
    requires
        base.len() == 0 || base.last() != '/',
        forall|i: int| 0 <= i < slashes.len() ==> #[trigger] slashes[i] == '/',
    ensures
        without_slashes(base + slashes) == base,
    decreases slashes.len(),
{
    if slashes.len() == 0 {
        assert(base + slashes =~= base);
    } else {
        assert((base + slashes).drop_last() =~= base + slashes.drop_last());
        lemma_slashes_are_taken_off(base, slashes.drop_last());
    }
}

/// A reply with items is no failure, and every other reply is one: it is
/// reported as a failure of the endpoint, in a message that ends in what the
/// endpoint said and names the address that was asked, and the status where
/// there is one.
pub proof fn law_replies_without_items_are_reported<T>(url: Seq<char>, reply: Reply<T>)
    ensures
        failure_of(url, reply) is None <==> reply is Items,
        reply matches Reply::Unsent(why) ==> failure_of(url, reply) == Some(
            ErrorView::ModelEndpoint("request to "@ + (url + (" failed: "@ + why@))),
        ),
        reply matches Reply::Refused { status, text } ==> failure_of(url, reply) == Some(
            ErrorView::ModelEndpoint(url + (" returned "@ + (status@ + (": "@ + text@)))),
        ),
        reply matches Reply::Invalid(why) ==> failure_of(url, reply) == Some(
            ErrorView::ModelEndpoint("invalid response from "@ + (url + (": "@ + why@))),
        ),
{
    match reply {
        Reply::Unsent(why) => {
            assert("request to "@ + url + " failed: "@ + why@ =~= "request to "@ + (url + (
            " failed: "@ + why@)));
        },
        Reply::Refused { status, text } => {
            assert(url + " returned "@ + status@ + ": "@ + text@ =~= url + (" returned "@ + (status@
                + (": "@ + text@))));
        },
        Reply::Invalid(why) => {
            assert("invalid response from "@ + url + ": "@ + why@ =~= "invalid response from "@ + (
            url + (": "@ + why@)));
        },
        Reply::Items(_) => {},
    }
}

} // verus!
