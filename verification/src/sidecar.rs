//! What the process that runs a language model answers: one line of JSON for each
//! request.
use vstd::prelude::*;
use vstd::string::*;

use crate::error::{Error, ErrorModel};
use crate::text::{lemma_says, says};

verus! {

/// What is read of a line: the `error` field, as JSON, and the completions in the
/// `rollouts` list, if there is one. An entry of the list without a `completion`
/// that is text has none.
#[derive(Debug)]
pub struct SidecarReply {
    pub error: Option<String>,
    pub completions: Option<Vec<Option<String>>>,
}

/// The view of a [`SidecarReply`].
#[verifier::ext_equal]
pub struct ReplyModel {
    pub error: Option<Seq<char>>,
    pub completions: Option<Seq<Option<Seq<char>>>>,
}

pub open spec fn text_of(text: Option<String>) -> Option<Seq<char>> {
    match text {
        Some(text) => Some(text@),
        None => None,
    }
}

pub open spec fn texts_of(texts: Seq<Option<String>>) -> Seq<Option<Seq<char>>> {
    Seq::new(texts.len(), |i: int| text_of(texts[i]))
}

impl View for SidecarReply {
    type V = ReplyModel;

    open spec fn view(&self) -> ReplyModel {
        ReplyModel {
            error: text_of(self.error),
            completions: match self.completions {
                Some(list) => Some(texts_of(list@)),
                None => None,
            },
        }
    }
}

/// What `serde_json::from_str` makes of a line: its `error` field and the
/// completions in its `rollouts`, or the message of its error.
pub uninterp spec fn line_parsed(line: Seq<char>) -> Result<
    (Option<Seq<char>>, Option<Seq<Option<Seq<char>>>>),
    Seq<char>,
>;

pub open spec fn fields_of(parsed: Result<SidecarReply, String>) -> Result<
    (Option<Seq<char>>, Option<Seq<Option<Seq<char>>>>),
    Seq<char>,
> {
    match parsed {
        Ok(reply) => Ok((reply@.error, reply@.completions)),
        Err(message) => Err(message@),
    }
}

/// `serde_json::from_str` for any JSON value, of which the fields of a
/// [`SidecarReply`] are taken: what they are, and what is said of a line that is
/// not JSON, depends on the line alone.
#[verifier::external_body]
fn parse_line(line: &str) -> (r: Result<SidecarReply, String>)
    ensures
        line_parsed(line@) == fields_of(r),
{
    let reply: serde_json::Value = match serde_json::from_str(line) {
        Ok(reply) => reply,
        Err(error) => return Err(error.to_string()),
    };
    let text = |entry: &serde_json::Value| entry["completion"].as_str().map(String::from);
    Ok(SidecarReply {
        error: reply.get("error").map(|error| error.to_string()),
        completions: reply["rollouts"].as_array().map(|list| list.iter().map(text).collect()),
    })
}

/// What a reply comes to: a line that is not JSON, or has an `error`, is a failure.
pub open spec fn accepted(
    parsed: Result<(Option<Seq<char>>, Option<Seq<Option<Seq<char>>>>), Seq<char>>,
) -> Result<ReplyModel, ErrorModel> {
    match parsed {
        Err(message) => Err(ErrorModel::Protocol("sidecar reply: "@ + message)),
        Ok((Some(error), _)) => Err(ErrorModel::Protocol("sidecar: "@ + error)),
        Ok((None, completions)) => Ok(ReplyModel { error: None, completions }),
    }
}

/// Decides on a line that was parsed.
pub fn accept_reply(parsed: Result<SidecarReply, String>) -> (r: Result<SidecarReply, Error>)
    ensures
        match r {
            Ok(reply) => accepted(fields_of(parsed)) == Ok::<ReplyModel, ErrorModel>(reply@),
            Err(error) => accepted(fields_of(parsed)) == Err::<ReplyModel, ErrorModel>(error@),
        },
{
    match parsed {
        Err(fault) => {
            let mut message = "sidecar reply: ".to_string();
            message.append(fault.as_str());
            Err(Error::Protocol(message))
        },
        Ok(reply) => match &reply.error {
            Some(fault) => {
                let mut message = "sidecar: ".to_string();
                message.append(fault.as_str());
                Err(Error::Protocol(message))
            },
            None => Ok(reply),
        },
    }
}

/// Reads a line of the process.
pub fn read_reply(line: &str) -> (r: Result<SidecarReply, Error>)
    ensures
        match r {
            Ok(reply) => accepted(line_parsed(line@)) == Ok::<ReplyModel, ErrorModel>(reply@),
            Err(error) => accepted(line_parsed(line@)) == Err::<ReplyModel, ErrorModel>(error@),
        },
{
    accept_reply(parse_line(line))
}

/// The completions of a reply. One that is missing is empty; without a list the
/// reply is malformed.
pub fn completions(reply: SidecarReply) -> (r: Result<Vec<String>, Error>)
    ensures
        match reply@.completions {
            None => r matches Err(error) && error@ == ErrorModel::Protocol("sidecar rollout reply malformed"@),
            Some(list) => r matches Ok(texts) && texts@.len() == list.len() && forall|i: int|
                0 <= i < list.len() ==> (#[trigger] texts@[i])@ == match list[i] {
                    Some(text) => text,
                    None => Seq::<char>::empty(),
                },
        },
{
    let list = match reply.completions {
        Some(list) => list,
        None => return Err(Error::Protocol("sidecar rollout reply malformed".to_string())),
    };
    let mut texts: Vec<String> = Vec::new();
    let mut i: usize = 0;
    while i < list.len()
        invariant
            i <= list@.len(),
            texts@.len() == i,
            forall|j: int|
                0 <= j < i ==> (#[trigger] texts@[j])@ == match text_of(list@[j]) {
                    Some(text) => text,
                    None => Seq::<char>::empty(),
                },
        decreases list@.len() - i,
    {
        let text: String = match &list[i] {
            Some(text) => text.clone(),
            None => String::new(),
        };
        texts.push(text);
        i += 1;
    }
    Ok(texts)
}

/// A reply is accepted exactly when it could be read and reports no error, with its
/// completions as they came; otherwise the refusal says why.
pub proof fn law_reply_is_accepted_exactly_if(parsed: Result<SidecarReply, String>, r: Result<SidecarReply, Error>)
    requires
        call_ensures(accept_reply, (parsed,), r),
    ensures
        r is Ok <==> parsed is Ok && parsed->Ok_0.error is None,
        r is Ok ==> r->Ok_0@.completions == parsed->Ok_0@.completions && r->Ok_0@.error is None,
        parsed matches Err(message) ==> (r matches Err(Error::Protocol(text)) && says(text@, message@)),
        parsed matches Ok(reply) ==> reply.error matches Some(message) ==> (r matches Err(Error::Protocol(text)) && says(
            text@,
            message@,
        )),
{
    lemma_says();
}

/// There is a completion for each that was sent, in the same order.
pub proof fn law_completions_keep_their_places(reply: SidecarReply, r: Result<Vec<String>, Error>, i: int)
    requires
        call_ensures(completions, (reply,), r),
    ensures
        r is Ok <==> reply.completions is Some,
        reply.completions matches Some(list) ==> r->Ok_0@.len() == list@.len() && (0 <= i < list@.len() ==> (
        list@[i] matches Some(text) ==> r->Ok_0@[i]@ == text@) && (list@[i] is None ==> r->Ok_0@[i]@.len() == 0)),
{
}

} // verus!
