//! JSON documents held against JSON schemas.

use crate::text::cat2;
use vstd::prelude::*;

verus! {

/// What a schema says of a document.
#[derive(Debug)]
pub enum Verdict {
    /// The document satisfies the schema.
    Valid,
    /// The document violates the schema, and how.
    Invalid(String),
    /// The schema is none, and why.
    NoSchema(String),
    /// The document is no JSON text, and why.
    NoDocument(String),
}

/// Whether a document satisfies a schema, both as JSON texts: nothing where the schema is
/// none or one of the texts is not read as JSON.
pub uninterp spec fn satisfies(schema: Seq<char>, document: Seq<char>) -> Option<bool>;

impl Verdict {
    /// The verdict without the words.
    pub open spec fn outcome(&self) -> Option<bool> {
        match *self {
            Verdict::Valid => Some(true),
            Verdict::Invalid(_) => Some(false),
            Verdict::NoSchema(_) => None,
            Verdict::NoDocument(_) => None,
        }
    }
}

/// `jsonschema::validator_for` on a schema and `Validator::validate` on a document, both read
/// by `serde_json::Deserializer` whatever their depth, which the stack has to hold. Which of
/// the outcomes comes is a function of the two texts; nothing is claimed of the words in which
/// an error is told.
#[verifier::external_body]
pub(crate) fn check(schema: &str, document: &str) -> (r: Verdict)
    ensures
        r.outcome() == satisfies(schema@, document@),
{
    let read = |text: &str| -> Result<serde_json::Value, serde_json::Error> {
        let mut reader = serde_json::Deserializer::from_str(text);
        reader.disable_recursion_limit();
        let value = serde::Deserialize::deserialize(&mut reader)?;
        reader.end().map(|_| value)
    };
    match (read(schema), read(document)) {
        (Err(e), _) => Verdict::NoSchema(e.to_string()),
        (_, Err(e)) => Verdict::NoDocument(e.to_string()),
        (Ok(s), Ok(d)) => match jsonschema::validator_for(&s) {
            Ok(v) => v.validate(&d).map_or_else(|e| Verdict::Invalid(e.to_string()), |_| Verdict::Valid),
            Err(e) => Verdict::NoSchema(e.to_string()),
        },
    }
}

/// What is said of a message on the way into or out of an agent: `direction` is `input` or
/// `output`.
pub open spec fn refusal(v: Verdict, direction: Seq<char>) -> Option<Seq<char>> {
    match v {
        Verdict::Valid => None,
        Verdict::Invalid(e) => Some("Invalid "@ + direction + ": "@ + e@),
        Verdict::NoSchema(e) => Some("Failed to compile "@ + direction + " schema: "@ + e@),
        Verdict::NoDocument(e) => Some("Failed to read "@ + direction + ": "@ + e@),
    }
}

/// What a verdict means for a message on the way into or out of an agent.
pub fn judged(v: Verdict, direction: &str) -> (r: Result<(), String>)
    ensures
        r is Ok <==> v is Valid,
        r matches Err(e) ==> refusal(v, direction@) == Some(e@),
{
    match v {
        Verdict::Valid => Ok(()),
        Verdict::Invalid(e) => {
            let mut s = cat2("Invalid ", direction);
            s.append(": ");
            s.append(e.as_str());
            Err(s)
        },
        Verdict::NoSchema(e) => {
            let mut s = cat2("Failed to compile ", direction);
            s.append(" schema: ");
            s.append(e.as_str());
            Err(s)
        },
        Verdict::NoDocument(e) => {
            let mut s = cat2("Failed to read ", direction);
            s.append(": ");
            s.append(e.as_str());
            Err(s)
        },
    }
}

/// Holds a message for an agent against the agent's input schema.
pub fn validate_input(schema: &str, message: &str) -> (r: Result<(), String>)
    ensures
        r is Ok <==> satisfies(schema@, message@) == Some(true),
        r matches Err(e) ==> exists|v: Verdict|
            v.outcome() == satisfies(schema@, message@) && #[trigger] refusal(v, "input"@) == Some(e@),
{
    judged(check(schema, message), "input")
}

/// Holds a message of an agent against the agent's output schema.
pub fn validate_output(schema: &str, message: &str) -> (r: Result<(), String>)
    ensures
        r is Ok <==> satisfies(schema@, message@) == Some(true),
        r matches Err(e) ==> exists|v: Verdict|
            v.outcome() == satisfies(schema@, message@) && #[trigger] refusal(v, "output"@) == Some(e@),
{
    judged(check(schema, message), "output")
}

/// What is said of a message by an agent that does not repeat the violation.
pub open spec fn brief_refusal(v: Verdict, direction: Seq<char>) -> Option<Seq<char>> {
    match v {
        Verdict::Valid => None,
        Verdict::Invalid(e) => Some("Invalid "@ + direction + " message schema"@),
        Verdict::NoSchema(e) => Some("Failed to compile "@ + direction + " schema: "@ + e@),
        Verdict::NoDocument(e) => Some("Failed to read "@ + direction + ": "@ + e@),
    }
}

/// What a verdict means for a message, where the violation is not repeated.
pub fn judged_briefly(v: Verdict, direction: &str) -> (r: Result<(), String>)
    ensures
        r is Ok <==> v is Valid,
        r matches Err(e) ==> brief_refusal(v, direction@) == Some(e@),
{
    match v {
        Verdict::Valid => Ok(()),
        Verdict::Invalid(e) => {
            let mut s = cat2("Invalid ", direction);
            s.append(" message schema");
            Err(s)
        },
        Verdict::NoSchema(e) => {
            let mut s = cat2("Failed to compile ", direction);
            s.append(" schema: ");
            s.append(e.as_str());
            Err(s)
        },
        Verdict::NoDocument(e) => {
            let mut s = cat2("Failed to read ", direction);
            s.append(": ");
            s.append(e.as_str());
            Err(s)
        },
    }
}

/// A message passes exactly where it satisfies the schema. What is said of another names the
/// direction, and repeats the violation or what is wrong with the schema or the message.
pub proof fn messages_are_judged(v: Verdict, direction: &str, r: Result<(), String>, brief: Result<(), String>)
    requires
        call_ensures(judged, (v, direction), r),
        call_ensures(judged_briefly, (v, direction), brief),
    ensures
        v is Valid ==> r is Ok && brief is Ok,
        v matches Verdict::Invalid(e) ==> (r matches Err(t) && t@ == "Invalid "@ + direction@ + ": "@ + e@) && (
        brief matches Err(t) && t@ == "Invalid "@ + direction@ + " message schema"@),
        v matches Verdict::NoSchema(e) ==> (r matches Err(t) && t@ == "Failed to compile "@ + direction@ + " schema: "@ + e@) && (
        brief matches Err(t) && t@ == "Failed to compile "@ + direction@ + " schema: "@ + e@),
        v matches Verdict::NoDocument(e) ==> (r matches Err(t) && t@ == "Failed to read "@ + direction@ + ": "@ + e@) && (
        brief matches Err(t) && t@ == "Failed to read "@ + direction@ + ": "@ + e@),
{
}

/// A message into or out of an agent is accepted exactly where it satisfies the agent's schema;
/// one that violates the schema is refused by the name of its direction.
pub proof fn messages_are_validated(schema: &str, message: &str, input: Result<(), String>, output: Result<(), String>)
    requires
        call_ensures(validate_input, (schema, message), input),
        call_ensures(validate_output, (schema, message), output),
    ensures
        input is Ok <==> satisfies(schema@, message@) == Some(true),
        output is Ok <==> satisfies(schema@, message@) == Some(true),
        satisfies(schema@, message@) == Some(false) ==> exists|e: Seq<char>| input->Err_0@ == #[trigger] ("Invalid "@
            + "input"@ + ": "@ + e),
        satisfies(schema@, message@) == Some(false) ==> exists|e: Seq<char>| output->Err_0@ == #[trigger] ("Invalid "@
            + "output"@ + ": "@ + e),
{
    if satisfies(schema@, message@) == Some(false) {
        let v = choose|v: Verdict|
            v.outcome() == satisfies(schema@, message@) && #[trigger] refusal(v, "input"@) == Some(input->Err_0@);
        assert(v is Invalid);
        let w = choose|v: Verdict|
            v.outcome() == satisfies(schema@, message@) && #[trigger] refusal(v, "output"@) == Some(output->Err_0@);
        assert(w is Invalid);
        assert(input->Err_0@ == "Invalid "@ + "input"@ + ": "@ + v->Invalid_0@);
        assert(output->Err_0@ == "Invalid "@ + "output"@ + ": "@ + w->Invalid_0@);
    }
}

} // verus!
