//! The interface to the Salesforce CLI (`sf`) and the reading of its JSON replies.
use vstd::prelude::*;

use crate::error::AppError;
use crate::text::{seq_le, sorted_seqs, str_lt, string_of, trim_string, trimmed, views};

verus! {

#[verifier::external_type_specification]
#[verifier::external_body]
pub struct ExJsonValue(serde_json::Value);

// ---------------------------------------------------------------------------
// Domain types
// ---------------------------------------------------------------------------

#[derive(Debug, Clone)]
pub struct OrgInfo {
    pub api_version: String,
}

#[derive(Debug, Clone)]
pub struct MetadataType {
    pub xml_name: String,
}

#[derive(Debug, Clone)]
pub struct MetadataComponent {
    pub full_name: String,
}

/// The names of metadata types.
pub open spec fn type_names(ts: Seq<MetadataType>) -> Seq<Seq<char>> {
    ts.map_values(|t: MetadataType| t.xml_name@)
}

/// The full names of metadata components.
pub open spec fn component_names(cs: Seq<MetadataComponent>) -> Seq<Seq<char>> {
    cs.map_values(|c: MetadataComponent| c.full_name@)
}

/// Access to the `sf` CLI. The program makes the calls that a run of `generate` and
/// the picker ask for (each with its arguments) through this trait, so that other
/// implementations (such as test doubles) can stand in for the real CLI.
pub trait SfClient {
    fn check_sf_exists(&self) -> Result<(), AppError>;

    fn get_org_info(&self, target_org: Option<&str>) -> Result<OrgInfo, AppError>;

    fn list_metadata_types(&self, target_org: Option<&str>, api_version: &str) -> Result<
        Vec<MetadataType>,
        AppError,
    >;

    fn list_metadata(
        &self,
        metadata_type: &str,
        target_org: Option<&str>,
        api_version: &str,
    ) -> Result<Vec<MetadataComponent>, AppError>;
}

/// The names of metadata types, in order.
pub fn xml_names(ts: &[MetadataType]) -> (r: Vec<String>)
    ensures
        views(r@) == type_names(ts@),
{
    let mut r: Vec<String> = Vec::new();
    let mut i: usize = 0;
    while i < ts.len()
        invariant
            i <= ts.len(),
            views(r@) == type_names(ts@).take(i as int),
        decreases ts.len() - i,
    {
        let ghost before = views(r@);
        r.push(ts[i].xml_name.clone());
        assert(views(r@) =~= before.push(ts@[i as int].xml_name@));
        assert(type_names(ts@).take(i + 1) =~= type_names(ts@).take(i as int).push(
            ts@[i as int].xml_name@,
        ));
        i = i + 1;
    }
    assert(type_names(ts@).take(i as int) =~= type_names(ts@));
    r
}

/// The full names of metadata components, in order.
pub fn full_names(cs: Vec<MetadataComponent>) -> (r: Vec<String>)
    ensures
        views(r@) == component_names(cs@),
{
    let mut r: Vec<String> = Vec::new();
    let mut i: usize = 0;
    while i < cs.len()
        invariant
            i <= cs.len(),
            views(r@) == component_names(cs@).take(i as int),
        decreases cs.len() - i,
    {
        let ghost before = views(r@);
        r.push(cs[i].full_name.clone());
        assert(views(r@) =~= before.push(cs@[i as int].full_name@));
        assert(component_names(cs@).take(i + 1) =~= component_names(cs@).take(i as int).push(
            cs@[i as int].full_name@,
        ));
        i = i + 1;
    }
    assert(component_names(cs@).take(i as int) =~= component_names(cs@));
    r
}

/// Metadata types in non-decreasing name order.
pub open spec fn types_sorted(ts: Seq<MetadataType>) -> bool {
    sorted_seqs(type_names(ts))
}

/// Sorts metadata types by name, keeping the order of equal names (a stable sort).
pub fn sort_metadata_types(ts: Vec<MetadataType>) -> (r: Vec<MetadataType>)
    ensures
        types_sorted(r@),
        r@.to_multiset() == ts@.to_multiset(),
        r@.len() == ts@.len(),
{
    broadcast use {vstd::multiset::group_multiset_axioms, vstd::seq_lib::group_to_multiset_ensures};

    let mut r: Vec<MetadataType> = Vec::new();
    let mut i: usize = 0;
    proof {
        vstd::seq_lib::to_multiset_len(r@);
        assert(r@.to_multiset() =~= vstd::multiset::Multiset::empty());
        assert(ts@.take(0).to_multiset() =~= vstd::multiset::Multiset::empty()) by {
            vstd::seq_lib::to_multiset_len(ts@.take(0));
        }
    }
    while i < ts.len()
        invariant
            i <= ts.len(),
            r@.len() == i,
            r@.to_multiset() == ts@.take(i as int).to_multiset(),
            types_sorted(r@),
        decreases ts.len() - i,
    {
        let x = MetadataType { xml_name: ts[i].xml_name.clone() };
        let ghost xv = ts@[i as int];
        assert(x == xv);
        let mut j: usize = r.len();
        while j > 0 && str_lt(x.xml_name.as_str(), r[j - 1].xml_name.as_str())
            invariant
                j <= r.len(),
                types_sorted(r@),
                forall|k: int| j <= k < r.len() ==> crate::text::seq_lt(x.xml_name@, #[trigger] r@[k].xml_name@),
            decreases j,
        {
            j = j - 1;
        }
        proof {
            if j > 0 {
                crate::text::lemma_lt_total(x.xml_name@, r@[j - 1].xml_name@);
            }
        }
        let ghost before = r@;
        r.insert(j, x);
        proof {
            let s = type_names(r@);
            let sb = type_names(before);
            assert forall|a: int, b: int| 0 <= a < b < s.len() implies seq_le(s[a], s[b]) by {
                assert(s[a] == r@[a].xml_name@);
                assert(s[b] == r@[b].xml_name@);
                if a < j && b == j {
                    assert(seq_le(sb[j - 1], x.xml_name@));
                    if a < j - 1 {
                        assert(seq_le(sb[a], sb[j - 1]));
                        crate::text::lemma_le_transitive(sb[a], sb[j - 1], x.xml_name@);
                    }
                } else if a == j && b > j {
                    assert(crate::text::seq_lt(x.xml_name@, before[b - 1].xml_name@));
                } else if a < j && b > j {
                    assert(seq_le(sb[a], sb[b - 1]));
                } else if a > j {
                    assert(seq_le(sb[a - 1], sb[b - 1]));
                } else {
                    assert(seq_le(sb[a], sb[b]));
                }
            }
            vstd::seq_lib::to_multiset_insert(before, j as int, x);
            assert(ts@.take(i + 1) =~= ts@.take(i as int).push(xv));
            vstd::seq_lib::to_multiset_build(ts@.take(i as int), xv);
        }
        i = i + 1;
    }
    assert(ts@.take(i as int) =~= ts@);
    r
}

// ---------------------------------------------------------------------------
// Arguments of the sf CLI
// ---------------------------------------------------------------------------

/// `-o <org>` when an org is given, else nothing (the CLI's default org).
pub open spec fn org_flag(target_org: Option<&str>) -> Seq<Seq<char>> {
    match target_org {
        Some(o) => seq!["-o"@, o@],
        None => Seq::empty(),
    }
}

/// The arguments of `sf org display`.
pub open spec fn org_display_argv(target_org: Option<&str>) -> Seq<Seq<char>> {
    seq!["org"@, "display"@, "--json"@] + org_flag(target_org)
}

/// The arguments of `sf org list metadata-types`.
pub open spec fn metadata_types_argv(target_org: Option<&str>, api_version: &str) -> Seq<Seq<char>> {
    seq!["org"@, "list"@, "metadata-types"@, "--api-version"@, api_version@, "--json"@] + org_flag(
        target_org,
    )
}

/// The arguments of `sf org list metadata`.
pub open spec fn metadata_list_argv(
    metadata_type: &str,
    target_org: Option<&str>,
    api_version: &str,
) -> Seq<Seq<char>> {
    seq![
        "org"@,
        "list"@,
        "metadata"@,
        "-m"@,
        metadata_type@,
        "--api-version"@,
        api_version@,
        "--json"@,
    ] + org_flag(target_org)
}

/// Appends `-o <org>` when an org is given.
fn push_org_flag(args: &mut Vec<String>, target_org: Option<&str>)
    ensures
        views(final(args)@) == views(old(args)@) + org_flag(target_org),
{
    let ghost before = views(args@);
    match target_org {
        Some(o) => {
            args.push(string_of("-o"));
            args.push(string_of(o));
            assert(views(args@) =~= before + org_flag(target_org));
        },
        None => {
            assert(views(args@) =~= before + org_flag(target_org));
        },
    }
}

/// The arguments of `sf org display` for the org (or the default one).
pub fn org_display_args(target_org: Option<&str>) -> (r: Vec<String>)
    ensures
        views(r@) == org_display_argv(target_org),
{
    let mut args: Vec<String> = Vec::new();
    args.push(string_of("org"));
    args.push(string_of("display"));
    args.push(string_of("--json"));
    assert(views(args@) =~= seq!["org"@, "display"@, "--json"@]);
    push_org_flag(&mut args, target_org);
    args
}

/// The arguments of `sf org list metadata-types` for the org at the API version.
pub fn metadata_types_args(target_org: Option<&str>, api_version: &str) -> (r: Vec<String>)
    ensures
        views(r@) == metadata_types_argv(target_org, api_version),
{
    let mut args: Vec<String> = Vec::new();
    args.push(string_of("org"));
    args.push(string_of("list"));
    args.push(string_of("metadata-types"));
    args.push(string_of("--api-version"));
    args.push(string_of(api_version));
    args.push(string_of("--json"));
    assert(views(args@) =~= seq!["org"@, "list"@, "metadata-types"@, "--api-version"@, api_version@, "--json"@]);
    push_org_flag(&mut args, target_org);
    args
}

/// The arguments of `sf org list metadata` for the type in the org at the API version.
pub fn metadata_list_args(metadata_type: &str, target_org: Option<&str>, api_version: &str) -> (r: Vec<String>)
    ensures
        views(r@) == metadata_list_argv(metadata_type, target_org, api_version),
{
    let mut args: Vec<String> = Vec::new();
    args.push(string_of("org"));
    args.push(string_of("list"));
    args.push(string_of("metadata"));
    args.push(string_of("-m"));
    args.push(string_of(metadata_type));
    args.push(string_of("--api-version"));
    args.push(string_of(api_version));
    args.push(string_of("--json"));
    assert(views(args@) =~= seq![
        "org"@,
        "list"@,
        "metadata"@,
        "-m"@,
        metadata_type@,
        "--api-version"@,
        api_version@,
        "--json"@,
    ]);
    push_org_flag(&mut args, target_org);
    args
}

// ---------------------------------------------------------------------------
// Replies of the sf CLI
// ---------------------------------------------------------------------------

/// The common structure of an `sf ... --json` reply.
pub struct SfResponse {
    pub status: i32,
    pub result: Option<serde_json::Value>,
    pub message: Option<String>,
    pub name: Option<String>,
    pub stack: Option<String>,
}

pub open spec fn opt_text(o: Option<String>) -> Option<Seq<char>> {
    match o {
        Some(s) => Some(s@),
        None => None,
    }
}

/// The message reported for a failed reply: `message` when it holds more than
/// white space, else `name` (or `UnknownError`) followed by the stack, if any.
pub open spec fn error_message_text(
    message: Option<Seq<char>>,
    name: Option<Seq<char>>,
    stack: Option<Seq<char>>,
) -> Seq<char> {
    if message matches Some(m) && trimmed(m).len() > 0 {
        message->0
    } else {
        let n = match name {
            Some(n) => n,
            None => "UnknownError"@,
        };
        let st = match stack {
            Some(s) => s,
            None => Seq::<char>::empty(),
        };
        if st.len() == 0 {
            n
        } else {
            n + "\n"@ + st
        }
    }
}

/// The error message of a failed reply.
pub fn build_error_message(response: &SfResponse) -> (r: String)
    ensures
        r@ == error_message_text(
            opt_text(response.message),
            opt_text(response.name),
            opt_text(response.stack),
        ),
{
    if let Some(msg) = &response.message {
        let t = trim_string(msg.as_str());
        if t.unicode_len() != 0 {
            return msg.clone();
        }
    }
    let name = match &response.name {
        Some(n) => n.clone(),
        None => string_of("UnknownError"),
    };
    match &response.stack {
        Some(stack) => {
            if stack.unicode_len() == 0 {
                name
            } else {
                name.concat("\n").concat(stack.as_str())
            }
        },
        None => name,
    }
}

/// The result of an `sf` reply: `parsed` is the reply's JSON (after removing
/// escape sequences), or `None` when it could not be parsed.
///
/// - unparsable reply: `JsonParseError` with the command's stderr
/// - non-zero status: `SfCliError` with the reply's error message
/// - zero status without `result`: `JsonParseError` with the command's stderr
/// - otherwise the `result` value
pub fn interpret_sf_response(parsed: Option<SfResponse>, stderr: &str) -> (r: Result<
    serde_json::Value,
    AppError,
>)
    ensures
        match parsed {
            None => r matches Err(AppError::JsonParseError { stderr: s }) && s@ == stderr@,
            Some(resp) => if resp.status != 0 {
                r matches Err(AppError::SfCliError { message }) && message@ == error_message_text(
                    opt_text(resp.message),
                    opt_text(resp.name),
                    opt_text(resp.stack),
                )
            } else {
                match resp.result {
                    Some(v) => r == Ok::<serde_json::Value, AppError>(v),
                    None => r matches Err(AppError::JsonParseError { stderr: s }) && s@ == stderr@,
                }
            },
        },
{
    match parsed {
        None => Err(AppError::JsonParseError { stderr: string_of(stderr) }),
        Some(response) => {
            if response.status != 0 {
                let message = build_error_message(&response);
                return Err(AppError::SfCliError { message });
            }
            match response.result {
                Some(v) => Ok(v),
                None => Err(AppError::JsonParseError { stderr: string_of(stderr) }),
            }
        },
    }
}

/// The error of `sf org display`, as reported while determining the API version:
/// a CLI error becomes an `ApiVersionError` with the same message.
pub fn org_info_error(e: AppError) -> (r: AppError)
    ensures
        match e {
            AppError::SfCliError { message } => r == AppError::ApiVersionError { message },
            other => r == other,
        },
{
    match e {
        AppError::SfCliError { message } => AppError::ApiVersionError { message },
        other => other,
    }
}

} // verus!
