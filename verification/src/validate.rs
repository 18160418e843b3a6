//! Whether a package is one this engine can load: its version, its transport,
//! and its shape.

use crate::json::{document_tree, parse_document, parsed_text, tree_of, Json, JsonView};
use crate::scene::pair_views;
use crate::text::str_eq;
use vstd::prelude::*;
use vstd::string::*;

verus! {

/// Why a package is not accepted.
#[derive(Debug, PartialEq, Eq)]
pub enum ValidationError {
    /// The package is of another version.
    MigrationRequired { found: String },
    /// The package names no version.
    MissingVersion,
    /// The package asks for a transport that is not built.
    RefusedTransport { protocol: String, reason: String },
    /// The package is not of the required shape.
    SchemaViolation { details: String },
    /// The schema itself cannot be used.
    SchemaCompile(String),
}

impl ValidationError {
    /// The message of an error.
    pub open spec fn text(self) -> Seq<char> {
        match self {
            ValidationError::MigrationRequired { found } =>
                "migration required: manifest has manifestVersion \""@ + found@
                + "\", expected \"0.3\" or \"0.4\". Run `nbe-migrate` to convert this package."@,
            ValidationError::MissingVersion =>
                "malformed manifest: no `manifestVersion` field present"@,
            ValidationError::RefusedTransport { protocol, reason } =>
                "manifest declares stream protocol \""@ + protocol@
                + "\", which this build does not implement: "@ + reason@,
            ValidationError::SchemaViolation { details } =>
                "manifest schema validation failed:\n"@ + details@,
            ValidationError::SchemaCompile(e) =>
                "internal error: embedded schema failed to compile: "@ + e@,
        }
    }

    /// The message of an error.
    pub fn message(&self) -> (s: String)
        ensures
            s@ == self.text(),
    {
        match self {
            ValidationError::MigrationRequired { found } => {
                "migration required: manifest has manifestVersion \"".to_owned().concat(
                    found.as_str(),
                ).concat(
                    "\", expected \"0.3\" or \"0.4\". Run `nbe-migrate` to convert this package.",
                )
            },
            ValidationError::MissingVersion => {
                "malformed manifest: no `manifestVersion` field present".to_owned()
            },
            ValidationError::RefusedTransport { protocol, reason } => {
                "manifest declares stream protocol \"".to_owned().concat(protocol.as_str()).concat(
                    "\", which this build does not implement: ",
                ).concat(reason.as_str())
            },
            ValidationError::SchemaViolation { details } => {
                "manifest schema validation failed:\n".to_owned().concat(details.as_str())
            },
            ValidationError::SchemaCompile(e) => {
                "internal error: embedded schema failed to compile: ".to_owned().concat(e.as_str())
            },
        }
    }
}

/// Check the version: 0.3 and 0.4 are accepted. Another version is a package
/// to migrate; none at all is a malformed package.
pub fn check_version(json: &Json) -> (r: Result<(), ValidationError>)
    ensures
        match json@.text_at("manifestVersion"@) {
            None => r matches Err(ValidationError::MissingVersion),
            Some(v) => if v == "0.3"@ || v == "0.4"@ {
                r is Ok
            } else {
                r matches Err(ValidationError::MigrationRequired { found }) && found@ == v
            },
        },
{
    match json.str_at("manifestVersion") {
        None => Err(ValidationError::MissingVersion),
        Some(v) => if str_eq(v, "0.3") || str_eq(v, "0.4") {
            Ok(())
        } else {
            Err(ValidationError::MigrationRequired { found: v.to_owned() })
        },
    }
}

/// Why SRT is not built.
pub const SRT_REASON: &'static str =
    "deferred pending a policy decision about the workspace's single unsafe_code exemption: most SRT stacks are libsrt bindings";

/// Why WHIP is not built.
pub const WHIP_REASON: &'static str =
    "a future contribution output, not a v1 streaming transport";

/// The stream protocol a package declares.
pub open spec fn declared_transport(json: JsonView) -> Option<Seq<char>> {
    match json.member("show"@) {
        None => None,
        Some(show) => match show.member("outputs"@) {
            None => None,
            Some(outputs) => match outputs.member("stream"@) {
                None => None,
                Some(stream) => stream.text_at("protocol"@),
            },
        },
    }
}

/// Refuse a transport that is known and not built, with the reason. A protocol
/// that nobody has named is not judged here.
pub fn check_transport(json: &Json) -> (r: Result<(), ValidationError>)
    ensures
        match declared_transport(json@) {
            None => r is Ok,
            Some(p) => if p == "srt"@ || p == "whip"@ {
                r matches Err(ValidationError::RefusedTransport { protocol, reason }) && protocol@
                    == p && reason@ == (if p == "srt"@ {
                    SRT_REASON@
                } else {
                    WHIP_REASON@
                })
            } else {
                r is Ok
            },
        },
{
    let show: &Json = match json.get("show") {
        Some(v) => v,
        None => return Ok(()),
    };
    let outputs: &Json = match show.get("outputs") {
        Some(v) => v,
        None => return Ok(()),
    };
    let stream: &Json = match outputs.get("stream") {
        Some(v) => v,
        None => return Ok(()),
    };
    let declared: &str = match stream.str_at("protocol") {
        Some(v) => v,
        None => return Ok(()),
    };
    if str_eq(declared, "srt") {
        return Err(
            ValidationError::RefusedTransport {
                protocol: declared.to_owned(),
                reason: SRT_REASON.to_owned(),
            },
        );
    }
    if str_eq(declared, "whip") {
        return Err(
            ValidationError::RefusedTransport {
                protocol: declared.to_owned(),
                reason: WHIP_REASON.to_owned(),
            },
        );
    }
    Ok(())
}

/// Whether building a validator from a schema may end so: without a fault in the
/// schema, or with one that is told like this.
pub uninterp spec fn schema_builds(schema: JsonView, fault: Option<Seq<char>>) -> bool;

/// Whether a document may be found to break a schema in these places, each
/// told like this, in this order.
pub uninterp spec fn schema_reports(
    schema: JsonView,
    document: JsonView,
    found: Seq<(Seq<char>, Seq<char>)>,
) -> bool;

/// Whether a schema can be used.
pub open spec fn schema_compiles(schema: JsonView) -> bool {
    schema_builds(schema, None)
}

/// Whether nothing is wrong with a document under a schema.
pub open spec fn schema_accepts(schema: JsonView, document: JsonView) -> bool {
    schema_reports(schema, document, Seq::empty())
}

/// `jsonschema::validator_for` and `Validator::iter_errors`: where and how a
/// document breaks a schema, or why the schema cannot be used. What comes back
/// is what the two calls say of these two documents, word for word and in
/// their order, and whether they say anything depends on the documents alone.
/// That the words and the order are the same every time is left unsaid.
#[verifier::external_body]
pub(crate) fn schema_findings(schema: &serde_json::Value, document: &serde_json::Value) -> (r: Result<
    Vec<(String, String)>,
    String,
>)
    ensures
        r is Ok <==> schema_compiles(document_tree(*schema)),
        r matches Err(why) ==> schema_builds(document_tree(*schema), Some(why@)),
        r matches Ok(found) ==> schema_reports(
            document_tree(*schema),
            document_tree(*document),
            pair_views(found@),
        ),
        r matches Ok(found) ==> (found@.len() == 0 <==> schema_accepts(
            document_tree(*schema),
            document_tree(*document),
        )),
{
    let validator = jsonschema::validator_for(schema).map_err(|e| e.to_string())?;
    Ok(validator.iter_errors(document).map(|e| (e.instance_path().to_string(), e.to_string())).collect())
}

/// One finding: where it is, unless it is the whole document, and what it is.
pub open spec fn finding_line(path: Seq<char>, what: Seq<char>) -> Seq<char> {
    if path.len() == 0 {
        what
    } else {
        path + ": "@ + what
    }
}

/// All findings, one to a line.
pub open spec fn finding_lines(found: Seq<(Seq<char>, Seq<char>)>) -> Seq<char>
    decreases found.len(),
{
    if found.len() == 0 {
        Seq::empty()
    } else {
        let last = finding_line(found.last().0, found.last().1);
        if found.len() == 1 {
            last
        } else {
            finding_lines(found.drop_last()) + "\n"@ + last
        }
    }
}

/// All findings, one to a line.
pub fn describe_findings(found: &Vec<(String, String)>) -> (s: String)
    ensures
        s@ == finding_lines(pair_views(found@)),
{
    let ghost all = pair_views(found@);
    let mut s: String = String::new();
    let mut i: usize = 0;
    assert(s@ =~= finding_lines(all.take(0)));
    while i < found.len()
        invariant
            i <= found@.len(),
            all == pair_views(found@),
            s@ == finding_lines(all.take(i as int)),
        decreases found@.len() - i,
    {
        let ghost before = s@;
        if i > 0 {
            s.append("\n");
        }
        let ghost mid = s@;
        let path: &str = found[i].0.as_str();
        if !path.is_empty() {
            s.append(path);
            s.append(": ");
        }
        s.append(found[i].1.as_str());
        i = i + 1;
        proof {
            let t = all.take(i as int);
            assert(t.drop_last() =~= all.take(i - 1));
            assert(t.last() == all[i - 1]);
            let last = finding_line(t.last().0, t.last().1);
            assert(s@ =~= mid + last);
            assert(finding_lines(t) =~= s@);
        }
    }
    assert(all.take(i as int) =~= all);
    s
}

/// What follows from the findings of a schema, or from its own fault.
pub fn findings_verdict(found: Result<Vec<(String, String)>, String>) -> (r: Result<
    (),
    ValidationError,
>)
    ensures
        match found {
            Err(why) => r matches Err(ValidationError::SchemaCompile(s)) && s@ == why@,
            Ok(list) => if list@.len() == 0 {
                r is Ok
            } else {
                r matches Err(ValidationError::SchemaViolation { details }) && details@
                    == finding_lines(pair_views(list@))
            },
        },
{
    match found {
        Err(e) => Err(ValidationError::SchemaCompile(e)),
        Ok(list) => if list.len() == 0 {
            Ok(())
        } else {
            Err(ValidationError::SchemaViolation { details: describe_findings(&list) })
        },
    }
}

/// What a schema says of a package: nothing, or what is wrong with the schema,
/// or every finding on a line of its own.
pub open spec fn schema_verdict(
    schema: JsonView,
    tree: JsonView,
    r: Result<(), ValidationError>,
) -> bool {
    if !schema_compiles(schema) {
        r matches Err(ValidationError::SchemaCompile(why)) && schema_builds(schema, Some(why@))
    } else if schema_accepts(schema, tree) {
        r is Ok
    } else {
        r matches Err(ValidationError::SchemaViolation { details }) && exists|
            found: Seq<(Seq<char>, Seq<char>)>,
        | #[trigger]
            schema_reports(schema, tree, found) && found.len() > 0 && details@ == finding_lines(
                found,
            )
    }
}

/// What validation says of a package: the version first, then the transport,
/// then the schema.
pub open spec fn verdict_matches(
    schema: Seq<char>,
    tree: JsonView,
    r: Result<(), ValidationError>,
) -> bool {
    match tree.text_at("manifestVersion"@) {
        None => r matches Err(ValidationError::MissingVersion),
        Some(v) => if v != "0.3"@ && v != "0.4"@ {
            r matches Err(ValidationError::MigrationRequired { found }) && found@ == v
        } else if declared_transport(tree) == Some("srt"@) || declared_transport(tree) == Some(
            "whip"@,
        ) {
            r matches Err(ValidationError::RefusedTransport { protocol, reason }) && Some(protocol@)
                == declared_transport(tree) && reason@ == (if protocol@ == "srt"@ {
                SRT_REASON@
            } else {
                WHIP_REASON@
            })
        } else {
            match parsed_text(schema) {
                Err(e) => r matches Err(ValidationError::SchemaCompile(why)) && why@ == e,
                Ok(s) => schema_verdict(s, tree, r),
            }
        },
    }
}

/// Validate a package against the text of the schema.
pub fn validate_manifest(schema: &str, json: &serde_json::Value) -> (r: Result<
    (),
    ValidationError,
>)
    ensures
        verdict_matches(schema@, document_tree(*json), r),
{
    let tree: Json = tree_of(json);
    match check_version(&tree) {
        Ok(()) => {},
        Err(e) => return Err(e),
    }
    match check_transport(&tree) {
        Ok(()) => {},
        Err(e) => return Err(e),
    }
    let document: serde_json::Value = match parse_document(schema) {
        Ok(v) => v,
        Err(e) => return Err(ValidationError::SchemaCompile(e)),
    };
    let found: Result<Vec<(String, String)>, String> = schema_findings(&document, json);
    let ghost said = found;
    let r: Result<(), ValidationError> = findings_verdict(found);
    proof {
        if let Ok(list) = said {
            assert(pair_views(list@).len() == list@.len());
        }
    }
    r
}

/// A package of another version is told to migrate before anything else is
/// said of it, whatever else is wrong with it.
pub proof fn law_version_comes_first(schema: Seq<char>, tree: JsonView, r: Result<(), ValidationError>, v: Seq<char>)
    requires
        verdict_matches(schema, tree, r),
        tree.text_at("manifestVersion"@) == Some(v),
        v != "0.3"@,
        v != "0.4"@,
    ensures
        r matches Err(ValidationError::MigrationRequired { found }) && found@ == v,
{
}

/// A transport that is not built never passes, whatever the schema says.
pub proof fn law_refused_transport_never_passes(schema: Seq<char>, tree: JsonView, r: Result<(), ValidationError>)
    requires
        verdict_matches(schema, tree, r),
        declared_transport(tree) == Some("srt"@) || declared_transport(tree) == Some("whip"@),
    ensures
        r is Err,
        !(r matches Err(ValidationError::SchemaViolation { .. })),
{
}

} // verus!
