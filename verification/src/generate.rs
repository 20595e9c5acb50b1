//! The `generate` command as a state machine. Each step takes what the program
//! outside the library observed (the start, the Ctrl+C flag, the replies of the `sf`
//! CLI, the text of a file, the picker's outcome, the output path and what the file
//! system says of it) and answers with the next thing to do, such as a call of the
//! `sf` CLI with its arguments.
use vstd::prelude::*;

use crate::cli::{args_problem, validate_args, GenerateArgs};
use crate::error::AppError;
use crate::inherit::{
    inherited_lists, is_wildcard_list, is_wildcard_members, opt_view, parse_xml_content,
    parsed_as, resolve_inherited_selections, resolved_selections, resolved_warnings,
    InheritedPackage,
};
use crate::non_interactive::{
    add_components, add_wildcards, given_types, lemma_next_folder_first, lemma_with_wildcards,
    next_folder, selection_targets, target_names, with_components, with_wildcards,
};
use crate::text::wildcard_text;
use crate::wildcard::spec_supports_wildcard;
use crate::output::{
    directory_message, empty_path_message, exists_message, missing_parent_message,
    output_parent, output_path_from_input, parent_dir, validate_output_path,
};
use crate::sf_client::{
    component_names, full_names, sort_metadata_types, type_names, types_sorted, xml_names,
    MetadataComponent, MetadataType, OrgInfo,
};
use crate::strmap::{list_view, SortedMap};
use crate::text::{contains_str, opt_str, string_of, trimmed, views};
use crate::xmlread::xml_events;
use crate::xml::{generate_package_xml, member_views, package_xml_text, PackageXmlInput};

verus! {

/// Where the run stands: what it waits for.
#[derive(Debug, Clone, Copy, PartialEq, Eq, Structural)]
pub enum Stage {
    /// Nothing done yet.
    Start,
    /// Waiting for whether the `sf` CLI is there.
    CheckingSf,
    /// The `sf` CLI is there; the interrupt check follows.
    SfChecked,
    /// Waiting for the text of the `--inherit` file.
    ReadingInherit,
    /// "Fetching API version..." said; the org is asked next.
    FetchingVersion,
    /// Waiting for the org's information.
    AskingOrg,
    /// The API version is known; the interrupt check follows.
    VersionKnown,
    /// "Fetching metadata types..." said; the types are listed next.
    FetchingTypes,
    /// Waiting for the org's metadata types.
    ListingTypes,
    /// The types are known and sorted; the interrupt check follows.
    TypesKnown,
    /// "Fetching components for inherited types..." said.
    Announced,
    /// Waiting for the components of the inherited type at this position.
    FetchingInherited(usize),
    /// The components of the inherited type before this position were fetched; the
    /// interrupt check follows.
    InheritFetched(usize),
    /// The warning at this position was said.
    Warning(usize),
    /// Waiting for the components of the non-interactive target at this position.
    Resolving(usize),
    /// The picker runs.
    Picking,
    /// The user is asked for the output path.
    Prompting,
    /// The output path is known; the interrupt check follows.
    PathKnown,
    /// Waiting for what the file system says of the output path.
    Probing,
    /// Waiting for whether the output directory exists.
    ProbingParent,
    /// The manifest is being written.
    Writing,
    /// "Written to ..." said.
    Finishing,
    /// The run is over.
    Done,
}

/// What the program observed.
#[derive(Debug)]
pub enum Event {
    /// The run starts.
    Begin,
    /// Whether the `sf` CLI is there.
    SfChecked(Result<(), AppError>),
    /// The org's information.
    OrgInfo(Result<OrgInfo, AppError>),
    /// The org's metadata types.
    TypesListed(Result<Vec<MetadataType>, AppError>),
    /// The components of the metadata type asked for.
    Components(Result<Vec<MetadataComponent>, AppError>),
    /// Whether Ctrl+C has been pressed.
    Interrupt(bool),
    /// The line asked for was said.
    Said,
    /// The text of the `--inherit` file, or the error reading it.
    InheritText(Result<String, AppError>),
    /// The picker's outcome.
    Picked(Result<SortedMap<Vec<String>>, AppError>),
    /// The line the user typed as the output path, or the error reading it.
    PathLine(Result<String, AppError>),
    /// Whether the output path is a directory, whether it exists, and its parent
    /// component (as `Path::parent` gives it).
    PathFacts { is_dir: bool, exists: bool, parent: Option<String> },
    /// Whether the output directory is a directory.
    ParentFacts { is_dir: bool },
    /// The outcome of writing the manifest.
    Written(Result<(), AppError>),
}

/// What the program has to do next.
#[derive(Debug)]
pub enum Request {
    /// Report whether Ctrl+C has been pressed.
    CheckInterrupt,
    /// Check that the `sf` CLI is there.
    CheckSf,
    /// Ask the org (the given one, else the default one) for its information.
    OrgInfo(Option<String>),
    /// List the metadata types of the org at this API version.
    ListTypes(Option<String>, String),
    /// List the components of this metadata type in the org at this API version.
    ListMetadata(String, Option<String>, String),
    /// Say this line on stderr.
    Say(String),
    /// Read the file at this path.
    ReadInherit(String),
    /// Run the picker over these types, with these members selected at first.
    Pick(Vec<MetadataType>, SortedMap<Vec<String>>),
    /// Ask the user for the output path.
    PromptPath,
    /// Look at this output path.
    ProbePath(String),
    /// Look at this directory.
    ProbeParent(String),
    /// Write this content to this path, creating the file.
    Write(String, String),
    /// The run is over, with this outcome.
    Finish(Result<(), AppError>),
}

/// The state of a run of `generate`.
pub struct Generate {
    pub args: GenerateArgs,
    pub stage: Stage,
    pub inherited: Option<InheritedPackage>,
    pub api_version: String,
    pub metadata_types: Vec<MetadataType>,
    /// The components fetched for inherited types.
    pub org_components: SortedMap<Vec<String>>,
    /// Inherited types whose components could not be fetched.
    pub skipped: Vec<String>,
    pub warnings: Vec<String>,
    /// The types selected in non-interactive mode.
    pub targets: Vec<String>,
    pub selections: SortedMap<Vec<String>>,
    pub output_path: String,
    /// The directory the output file goes to.
    pub parent: String,
}

pub open spec fn fetching_version_line() -> Seq<char> {
    "Fetching API version..."@
}

pub open spec fn fetching_types_line() -> Seq<char> {
    "Fetching metadata types..."@
}

pub open spec fn fetching_components_line() -> Seq<char> {
    "Fetching components for inherited types..."@
}

pub open spec fn warning_line(w: Seq<char>) -> Seq<char> {
    "Warning: "@ + w
}

pub open spec fn written_line(path: Seq<char>) -> Seq<char> {
    "Written to "@ + path + "."@
}

/// The stages that wait for the interrupt flag.
pub open spec fn checks_interrupt(stage: Stage) -> bool {
    ||| stage == Stage::SfChecked
    ||| stage == Stage::VersionKnown
    ||| stage == Stage::TypesKnown
    ||| stage is InheritFetched
    ||| stage == Stage::PathKnown
}

/// The stages that wait for a line to have been said.
pub open spec fn waits_for_said(stage: Stage) -> bool {
    ||| stage == Stage::FetchingVersion
    ||| stage == Stage::FetchingTypes
    ||| stage == Stage::Announced
    ||| stage is Warning
    ||| stage == Stage::Finishing
}

/// The event answers what the stage waits for.
pub open spec fn expects(stage: Stage, event: Event) -> bool {
    match event {
        Event::Begin => stage == Stage::Start,
        Event::SfChecked(_) => stage == Stage::CheckingSf,
        Event::OrgInfo(_) => stage == Stage::AskingOrg,
        Event::TypesListed(_) => stage == Stage::ListingTypes,
        Event::Components(_) => stage is FetchingInherited || stage is Resolving,
        Event::Interrupt(_) => checks_interrupt(stage),
        Event::Said => waits_for_said(stage),
        Event::InheritText(_) => stage == Stage::ReadingInherit,
        Event::Picked(r) => stage == Stage::Picking && (r matches Ok(m) ==> m.wf()),
        Event::PathLine(_) => stage == Stage::Prompting,
        Event::PathFacts { .. } => stage == Stage::Probing,
        Event::ParentFacts { .. } => stage == Stage::ProbingParent,
        Event::Written(_) => stage == Stage::Writing,
    }
}

/// The inherited package can be parsed from `text` (of the file at `path`) to `r`.
pub open spec fn parse_outcome(text: Seq<char>, path: Seq<char>, r: Result<InheritedPackage, AppError>) -> bool {
    parsed_as(r, xml_events(text), path)
}

/// Whether the inherited type at position `i` needs its components fetched: it
/// lists individual members and the org has the type.
pub open spec fn needs_fetch(p: InheritedPackage, org: Seq<Seq<char>>, i: int) -> bool {
    !is_wildcard_list(inherited_lists(p)[i]) && org.contains(p.types.keys()[i])
}

/// The first inherited type from position `from` on whose components are fetched.
pub open spec fn next_fetch(p: InheritedPackage, org: Seq<Seq<char>>, from: int) -> Option<int>
    decreases p.types.keys().len() - from,
{
    if from < 0 || from >= p.types.keys().len() {
        None
    } else if needs_fetch(p, org, from) {
        Some(from)
    } else {
        next_fetch(p, org, from + 1)
    }
}

/// Some inherited type lists individual members.
pub open spec fn has_individual_members(p: InheritedPackage) -> bool {
    exists|i: int| 0 <= i < inherited_lists(p).len() && !is_wildcard_list(#[trigger] inherited_lists(p)[i])
}

/// The `--types` values as text.
pub open spec fn types_view(types: Option<Vec<String>>) -> Option<Seq<Seq<char>>> {
    match types {
        Some(t) => Some(views(t@)),
        None => None,
    }
}

/// The API version given: the option, else the inherited package's version.
pub open spec fn given_version(g: Generate) -> Option<Seq<char>> {
    match g.args.api_version {
        Some(v) => Some(v@),
        None => match g.inherited {
            Some(p) => match p.version {
                Some(v) => Some(v@),
                None => None,
            },
            None => None,
        },
    }
}

/// What a stage needs of the run: an `--inherit` path to read, an inherited package
/// to fetch for, a warning to have said.
pub open spec fn stage_ok(g: Generate, stage: Stage) -> bool {
    &&& stage == Stage::ReadingInherit ==> g.args.inherit is Some
    &&& (stage == Stage::Announced || stage is InheritFetched) ==> g.inherited is Some
    &&& stage matches Stage::InheritFetched(i) ==> i <= g.inherited->0.types.keys().len()
    &&& stage matches Stage::FetchingInherited(i) ==> g.inherited is Some && i < g.inherited->0.types.keys().len()
    &&& stage matches Stage::Resolving(i) ==> i < g.targets@.len()
    &&& stage matches Stage::Warning(k) ==> k < g.warnings@.len()
}

impl Generate {
    /// The maps are well formed.
    pub open spec fn data_wf(&self) -> bool {
        &&& self.org_components.wf()
        &&& self.selections.wf()
        &&& self.inherited matches Some(p) ==> p.types.wf()
    }

    /// The maps are well formed and the stage has what it needs.
    pub open spec fn wf(&self) -> bool {
        &&& self.data_wf()
        &&& stage_ok(*self, self.stage)
    }
}

/// The run ends with `r`.
pub open spec fn finished(pre: Generate, post: Generate, req: Request, r: Result<(), AppError>) -> bool {
    post == (Generate { stage: Stage::Done, ..pre }) && req == Request::Finish(r)
}

/// The run ends with a `Cancelled` error.
pub open spec fn cancelled(pre: Generate, post: Generate, req: Request) -> bool {
    &&& post == (Generate { stage: Stage::Done, ..pre })
    &&& req matches Request::Finish(Err(e)) && e is Cancelled
}

/// The run asks for the interrupt flag at `stage`.
pub open spec fn check_at(pre: Generate, stage: Stage, post: Generate, req: Request) -> bool {
    post == (Generate { stage, ..pre }) && req == Request::CheckInterrupt
}

/// The run says `line` and moves to `stage`.
pub open spec fn say_at(pre: Generate, stage: Stage, line: Seq<char>, post: Generate, req: Request) -> bool {
    &&& post == (Generate { stage, ..pre })
    &&& req matches Request::Say(s) && s@ == line
}

/// After the `sf` check gave `res`.
pub open spec fn sf_checked(pre: Generate, res: Result<(), AppError>, post: Generate, req: Request) -> bool {
    match res {
        Err(e) => finished(pre, post, req, Err(e)),
        Ok(_) => check_at(pre, Stage::SfChecked, post, req),
    }
}

/// At the start: the options are checked, then whether the `sf` CLI is there.
pub open spec fn began(pre: Generate, post: Generate, req: Request) -> bool {
    match args_problem(pre.args) {
        Some(m) => {
            &&& post == (Generate { stage: Stage::Done, ..pre })
            &&& req matches Request::Finish(Err(e)) && e matches AppError::ValidationError { message }
                && message@ == m
        },
        None => post == (Generate { stage: Stage::CheckingSf, ..pre }) && req == Request::CheckSf,
    }
}

/// The API version: the one given (by option, else by the inherited package), or
/// else the org is asked for it after saying so.
pub open spec fn version_chosen(pre: Generate, post: Generate, req: Request) -> bool {
    match given_version(pre) {
        Some(v) => post == (Generate {
            stage: Stage::VersionKnown,
            api_version: post.api_version,
            ..pre
        }) && post.api_version@ == v && req == Request::CheckInterrupt,
        None => say_at(pre, Stage::FetchingVersion, fetching_version_line(), post, req),
    }
}

/// After the first interrupt check: the `--inherit` file is read, if given.
pub open spec fn after_sf_check(pre: Generate, post: Generate, req: Request) -> bool {
    match pre.args.inherit {
        Some(path) => {
            &&& post == (Generate { stage: Stage::ReadingInherit, ..pre })
            &&& req matches Request::ReadInherit(p) && p@ == path@
        },
        None => version_chosen(pre, post, req),
    }
}

/// After reading the `--inherit` file gave `text`: it is parsed, and a parse
/// error ends the run.
pub open spec fn inherit_read(pre: Generate, text: Result<String, AppError>, post: Generate, req: Request) -> bool {
    match text {
        Err(e) => finished(pre, post, req, Err(e)),
        Ok(t) => exists|pr: Result<InheritedPackage, AppError>|
            #[trigger] parse_outcome(t@, pre.args.inherit->0@, pr) && match pr {
                Err(e) => finished(pre, post, req, Err(e)),
                Ok(p) => version_chosen(Generate { inherited: Some(p), ..pre }, post, req),
            },
    }
}

/// After asking the org for its API version gave `res`.
pub open spec fn version_fetched(pre: Generate, res: Result<OrgInfo, AppError>, post: Generate, req: Request) -> bool {
    match res {
        Err(e) => finished(pre, post, req, Err(e)),
        Ok(info) => check_at(Generate { api_version: info.api_version, ..pre }, Stage::VersionKnown, post, req),
    }
}

/// After listing the metadata types gave `res`: none is an error; otherwise they
/// are kept sorted by name.
pub open spec fn types_fetched(
    pre: Generate,
    res: Result<Vec<MetadataType>, AppError>,
    post: Generate,
    req: Request,
) -> bool {
    match res {
        Err(e) => finished(pre, post, req, Err(e)),
        Ok(ts) => if ts@.len() == 0 {
            &&& post == (Generate { stage: Stage::Done, ..pre })
            &&& req matches Request::Finish(Err(e)) && e is NoMetadataTypes
        } else {
            &&& post == (Generate {
                stage: Stage::TypesKnown,
                metadata_types: post.metadata_types,
                ..pre
            })
            &&& types_sorted(post.metadata_types@)
            &&& post.metadata_types@.to_multiset() == ts@.to_multiset()
            &&& req == Request::CheckInterrupt
        },
    }
}

/// The output path: the option, else the user is asked.
pub open spec fn path_asked(pre: Generate, post: Generate, req: Request) -> bool {
    match pre.args.output_file {
        Some(p) => post == (Generate {
            stage: Stage::PathKnown,
            output_path: post.output_path,
            ..pre
        }) && post.output_path@ == p@ && req == Request::CheckInterrupt,
        None => post == (Generate { stage: Stage::Prompting, ..pre }) && req == Request::PromptPath,
    }
}

/// The picker is run over the types with the current selections to start from.
pub open spec fn picking(pre: Generate, post: Generate, req: Request) -> bool {
    &&& post == (Generate {
        stage: Stage::Picking,
        metadata_types: post.metadata_types,
        selections: post.selections,
        ..pre
    })
    &&& post.metadata_types@.len() == 0
    &&& post.selections.wf()
    &&& req matches Request::Pick(ts, init) && ts == pre.metadata_types && init == pre.selections
}

/// The warnings from position `k` on are said one by one, then the picker runs.
pub open spec fn warnings_from(pre: Generate, k: int, post: Generate, req: Request) -> bool {
    if 0 <= k < pre.warnings@.len() {
        say_at(pre, Stage::Warning(k as usize), warning_line(pre.warnings@[k]@), post, req)
    } else {
        picking(pre, post, req)
    }
}

/// Fetching the components of the inherited type `name` gave `res`: they are
/// kept, or the type is marked as skipped.
pub open spec fn fetch_recorded(
    pre: Generate,
    name: Seq<char>,
    res: Result<Vec<MetadataComponent>, AppError>,
    post: Generate,
) -> bool {
    match res {
        Ok(cs) => {
            &&& post == (Generate { org_components: post.org_components, ..pre })
            &&& post.org_components.wf()
            &&& list_view(post.org_components) == list_view(pre.org_components).insert(
                name,
                component_names(cs@),
            )
        },
        Err(_) => post == (Generate { skipped: post.skipped, ..pre }) && views(post.skipped@) == views(
            pre.skipped@,
        ).push(name),
    }
}

/// `req` lists the components of the type `name` in the org given by the option (if
/// any) at the run's API version.
pub open spec fn lists_components(pre: Generate, name: Seq<char>, req: Request) -> bool {
    req matches Request::ListMetadata(n, o, v) && n@ == name && opt_view(o) == opt_view(
        pre.args.target_org,
    ) && v@ == pre.api_version@
}

/// From inherited position `from` on: the components of the next type that needs
/// them are asked for (and then recorded, before the interrupt check); after the last, the inherited
/// selections are resolved and the warnings said.
pub open spec fn fetching_from(pre: Generate, from: int, post: Generate, req: Request) -> bool {
    let p = pre.inherited->0;
    let org = type_names(pre.metadata_types@);
    match next_fetch(p, org, from) {
        Some(i) => post == (Generate { stage: Stage::FetchingInherited(i as usize), ..pre })
            && lists_components(pre, p.types.keys()[i], req),
        None => exists|s: SortedMap<Vec<String>>, w: Vec<String>|
            #[trigger] warnings_from(Generate { selections: s, warnings: w, ..pre }, 0, post, req) && s.wf()
                && list_view(s) == resolved_selections(
                p.types.keys(),
                inherited_lists(p),
                org,
                list_view(pre.org_components),
                views(pre.skipped@),
            ) && views(w@) == resolved_warnings(
                p.types.keys(),
                inherited_lists(p),
                org,
                list_view(pre.org_components),
                views(pre.skipped@),
            ),
    }
}

/// The position of the next folder-based target from `from` on, or the number of
/// targets.
pub open spec fn folder_or_end(ts: Seq<Seq<char>>, from: int) -> int {
    match next_folder(ts, from) {
        Some(j) => j,
        None => ts.len() as int,
    }
}

/// From non-interactive target `from` on: the targets up to the next folder-based
/// one are selected with `*` and that one's components are asked for; after the
/// last, an empty selection ends the run and any other is kept.
pub open spec fn resolving_from(pre: Generate, from: int, post: Generate, req: Request) -> bool {
    let ts = views(pre.targets@);
    let m = with_wildcards(list_view(pre.selections), ts, from, folder_or_end(ts, from));
    match next_folder(ts, from) {
        Some(j) => {
            &&& post == (Generate {
                stage: Stage::Resolving(j as usize),
                selections: post.selections,
                ..pre
            })
            &&& post.selections.wf()
            &&& list_view(post.selections) == m
            &&& lists_components(pre, ts[j], req)
        },
        None => if m == Map::<Seq<char>, Seq<Seq<char>>>::empty() {
            exists|s: SortedMap<Vec<String>>|
                s.wf() && list_view(s) == m && #[trigger] finished(
                    Generate { selections: s, ..pre },
                    post,
                    req,
                    Err(AppError::NoComponentsSelected),
                )
        } else {
            exists|s: SortedMap<Vec<String>>|
                s.wf() && list_view(s) == m && #[trigger] path_asked(Generate { selections: s, ..pre }, post, req)
        },
    }
}

/// The components of the non-interactive target at position `i` came back as `res`:
/// an error ends the run; otherwise they are selected and resolution goes on.
pub open spec fn resolve_listed(
    pre: Generate,
    i: int,
    res: Result<Vec<MetadataComponent>, AppError>,
    post: Generate,
    req: Request,
) -> bool {
    match res {
        Err(e) => finished(pre, post, req, Err(e)),
        Ok(cs) => exists|s: SortedMap<Vec<String>>|
            s.wf() && list_view(s) == with_components(
                list_view(pre.selections),
                views(pre.targets@)[i],
                cs@,
            ) && #[trigger] resolving_from(Generate { selections: s, ..pre }, i + 1, post, req),
    }
}

/// After the types are known: non-interactive resolution, or the picker with the
/// inherited selections (fetching what they need first).
pub open spec fn selecting(pre: Generate, post: Generate, req: Request) -> bool {
    if pre.args.non_interactive {
        match target_names(pre.metadata_types@, pre.args.all, types_view(pre.args.types)) {
            Err(m) => {
                &&& post == (Generate { stage: Stage::Done, ..pre })
                &&& req matches Request::Finish(Err(e)) && e matches AppError::ValidationError {
                    message,
                } && message@ == m
            },
            Ok(ts) => exists|t: Vec<String>, s: SortedMap<Vec<String>>|
                views(t@) == ts && s.wf() && list_view(s) == Map::<Seq<char>, Seq<Seq<char>>>::empty()
                    && #[trigger] resolving_from(Generate { targets: t, selections: s, ..pre }, 0, post, req),
        }
    } else {
        match pre.inherited {
            None => picking(pre, post, req),
            Some(p) => if has_individual_members(p) {
                say_at(pre, Stage::Announced, fetching_components_line(), post, req)
            } else {
                fetching_from(pre, 0, post, req)
            },
        }
    }
}

/// After the output path was probed: a directory or an existing file ends the run;
/// otherwise its directory is probed.
pub open spec fn path_probed(
    pre: Generate,
    is_dir: bool,
    exists: bool,
    parent: Option<String>,
    post: Generate,
    req: Request,
) -> bool {
    if is_dir {
        &&& post == (Generate { stage: Stage::Done, ..pre })
        &&& req matches Request::Finish(Err(e)) && e matches AppError::OutputPathError { message }
            && message@ == directory_message(pre.output_path@)
    } else if exists {
        &&& post == (Generate { stage: Stage::Done, ..pre })
        &&& req matches Request::Finish(Err(e)) && e matches AppError::OutputPathError { message }
            && message@ == exists_message(pre.output_path@)
    } else {
        &&& post == (Generate { stage: Stage::ProbingParent, parent: post.parent, ..pre })
        &&& post.parent@ == parent_dir(
            match parent {
                Some(p) => Some(p@),
                None => None,
            },
        )
        &&& req matches Request::ProbeParent(d) && d@ == post.parent@
    }
}

/// After the output directory was probed: a missing one ends the run; otherwise
/// the manifest is written.
pub open spec fn parent_probed(pre: Generate, is_dir: bool, post: Generate, req: Request) -> bool {
    if !is_dir {
        &&& post == (Generate { stage: Stage::Done, ..pre })
        &&& req matches Request::Finish(Err(e)) && e matches AppError::OutputPathError { message }
            && message@ == missing_parent_message(pre.parent@)
    } else {
        &&& post == (Generate { stage: Stage::Writing, ..pre })
        &&& req matches Request::Write(path, content) && path@ == pre.output_path@ && content@
            == package_xml_text(
            pre.selections.keys(),
            member_views(pre.selections.values()),
            pre.api_version@,
        )
    }
}

/// What one step does, by stage and event.
pub open spec fn stepped(pre: Generate, event: Event, post: Generate, req: Request) -> bool {
    match event {
        Event::Begin => began(pre, post, req),
        Event::SfChecked(res) => sf_checked(pre, res, post, req),
        Event::OrgInfo(res) => version_fetched(pre, res, post, req),
        Event::TypesListed(res) => types_fetched(pre, res, post, req),
        Event::Components(res) => match pre.stage {
            Stage::FetchingInherited(i) => {
                &&& post.stage == Stage::InheritFetched((i + 1) as usize)
                &&& req == Request::CheckInterrupt
                &&& fetch_recorded(
                    pre,
                    pre.inherited->0.types.keys()[i as int],
                    res,
                    Generate { stage: pre.stage, ..post },
                )
            },
            Stage::Resolving(i) => resolve_listed(pre, i as int, res, post, req),
            _ => finished(pre, post, req, Ok(())),
        },
        Event::Interrupt(true) => cancelled(pre, post, req),
        Event::Interrupt(false) => match pre.stage {
            Stage::SfChecked => after_sf_check(pre, post, req),
            Stage::VersionKnown => say_at(pre, Stage::FetchingTypes, fetching_types_line(), post, req),
            Stage::TypesKnown => selecting(pre, post, req),
            Stage::InheritFetched(i) => fetching_from(pre, i as int, post, req),
            _ => {
                &&& post == (Generate { stage: Stage::Probing, ..pre })
                &&& req matches Request::ProbePath(p) && p@ == pre.output_path@
            },
        },
        Event::Said => match pre.stage {
            Stage::FetchingVersion => {
                &&& post == (Generate { stage: Stage::AskingOrg, ..pre })
                &&& req matches Request::OrgInfo(o) && opt_view(o) == opt_view(pre.args.target_org)
            },
            Stage::FetchingTypes => {
                &&& post == (Generate { stage: Stage::ListingTypes, ..pre })
                &&& req matches Request::ListTypes(o, v) && opt_view(o) == opt_view(pre.args.target_org)
                    && v@ == pre.api_version@
            },
            Stage::Announced => fetching_from(pre, 0, post, req),
            Stage::Warning(k) => warnings_from(pre, k + 1, post, req),
            _ => finished(pre, post, req, Ok(())),
        },
        Event::InheritText(text) => inherit_read(pre, text, post, req),
        Event::Picked(res) => match res {
            Err(e) => finished(pre, post, req, Err(e)),
            Ok(m) => path_asked(Generate { selections: m, ..pre }, post, req),
        },
        Event::PathLine(res) => match res {
            Err(e) => finished(pre, post, req, Err(e)),
            Ok(line) => if trimmed(line@).len() == 0 {
                &&& post == (Generate { stage: Stage::Done, ..pre })
                &&& req matches Request::Finish(Err(e)) && e matches AppError::OutputPathError {
                    message,
                } && message@ == empty_path_message()
            } else {
                post == (Generate {
                    stage: Stage::PathKnown,
                    output_path: post.output_path,
                    ..pre
                }) && post.output_path@ == trimmed(line@) && req == Request::CheckInterrupt
            },
        },
        Event::PathFacts { is_dir, exists, parent } => path_probed(pre, is_dir, exists, parent, post, req),
        Event::ParentFacts { is_dir } => parent_probed(pre, is_dir, post, req),
        Event::Written(res) => match res {
            Err(e) => finished(pre, post, req, Err(e)),
            Ok(_) => say_at(pre, Stage::Finishing, written_line(pre.output_path@), post, req),
        },
    }
}

impl Generate {
    /// A run of `generate` with these options, at its start.
    pub fn new(args: GenerateArgs) -> (r: Generate)
        ensures
            r.wf(),
            r.args == args,
            r.stage == Stage::Start,
            r.inherited is None,
            r.metadata_types@.len() == 0,
            r.org_components.keys().len() == 0,
            r.skipped@.len() == 0,
            r.warnings@.len() == 0,
            r.selections.keys().len() == 0,
    {
        Generate {
            args,
            stage: Stage::Start,
            inherited: None,
            api_version: String::new(),
            metadata_types: Vec::new(),
            org_components: SortedMap::new(),
            skipped: Vec::new(),
            warnings: Vec::new(),
            targets: Vec::new(),
            selections: SortedMap::new(),
            output_path: String::new(),
            parent: String::new(),
        }
    }

    /// Whether `event` answers what the run waits for.
    pub fn accepts(&self, event: &Event) -> (r: bool)
        ensures
            r == expects(self.stage, *event),
    {
        match event {
            Event::Begin => self.stage == Stage::Start,
            Event::SfChecked(_) => self.stage == Stage::CheckingSf,
            Event::OrgInfo(_) => self.stage == Stage::AskingOrg,
            Event::TypesListed(_) => self.stage == Stage::ListingTypes,
            Event::Components(_) => match self.stage {
                Stage::FetchingInherited(_) | Stage::Resolving(_) => true,
                _ => false,
            },
            Event::Interrupt(_) => match self.stage {
                Stage::SfChecked | Stage::VersionKnown | Stage::TypesKnown | Stage::InheritFetched(
                    _,
                )
                | Stage::PathKnown => true,
                _ => false,
            },
            Event::Said => match self.stage {
                Stage::FetchingVersion | Stage::FetchingTypes | Stage::Announced | Stage::Warning(_)
                | Stage::Finishing => true,
                _ => false,
            },
            Event::InheritText(_) => self.stage == Stage::ReadingInherit,
            Event::Picked(r) => self.stage == Stage::Picking && match r {
                Ok(m) => m.is_well_formed(),
                Err(_) => true,
            },
            Event::PathLine(_) => self.stage == Stage::Prompting,
            Event::PathFacts { .. } => self.stage == Stage::Probing,
            Event::ParentFacts { .. } => self.stage == Stage::ProbingParent,
            Event::Written(_) => self.stage == Stage::Writing,
        }
    }

    fn finish(&mut self, r: Result<(), AppError>) -> (req: Request)
        requires
            old(self).data_wf(),
        ensures
            final(self).wf(),
            finished(*old(self), *final(self), req, r),
    {
        self.stage = Stage::Done;
        Request::Finish(r)
    }

    fn check(&mut self, stage: Stage) -> (req: Request)
        requires
            old(self).data_wf(),
            stage_ok(*old(self), stage),
        ensures
            final(self).wf(),
            check_at(*old(self), stage, *final(self), req),
    {
        self.stage = stage;
        Request::CheckInterrupt
    }

    fn say(&mut self, stage: Stage, line: String) -> (req: Request)
        requires
            old(self).data_wf(),
            stage_ok(*old(self), stage),
        ensures
            final(self).wf(),
            say_at(*old(self), stage, line@, *final(self), req),
    {
        self.stage = stage;
        Request::Say(line)
    }

    /// Performs the step for `event`.
    pub fn step(&mut self, event: Event) -> (req: Request)
        requires
            old(self).wf(),
            expects(old(self).stage, event),
        ensures
            final(self).wf(),
            stepped(*old(self), event, *final(self), req),
    {
        match event {
            Event::Begin => self.begin(),
            Event::SfChecked(res) => match res {
                Err(e) => self.finish(Err(e)),
                Ok(()) => self.check(Stage::SfChecked),
            },
            Event::OrgInfo(res) => self.version_fetched(res),
            Event::TypesListed(res) => self.types_fetched(res),
            Event::Components(res) => match self.stage {
                Stage::FetchingInherited(i) => self.inherited_listed(i, res),
                Stage::Resolving(i) => self.resolve_listed(i, res),
                _ => self.finish(Ok(())),
            },
            Event::Interrupt(true) => {
                let req = self.finish(Err(AppError::Cancelled));
                req
            },
            Event::Interrupt(false) => match self.stage {
                Stage::SfChecked => self.after_sf_check(),

                Stage::VersionKnown => self.say(Stage::FetchingTypes, string_of("Fetching metadata types...")),
                Stage::TypesKnown => self.select(),
                Stage::InheritFetched(i) => self.fetch_inherited(i),
                _ => {
                    self.stage = Stage::Probing;
                    Request::ProbePath(self.output_path.clone())
                },
            },
            Event::Said => match self.stage {
                Stage::FetchingVersion => {
                    self.stage = Stage::AskingOrg;
                    Request::OrgInfo(clone_opt(&self.args.target_org))
                },
                Stage::FetchingTypes => {
                    self.stage = Stage::ListingTypes;
                    Request::ListTypes(clone_opt(&self.args.target_org), self.api_version.clone())
                },
                Stage::Announced => self.fetch_inherited(0),
                Stage::Warning(k) => {
                    let n = self.warnings.len();
                    assert(k < n);
                    self.say_warnings(k + 1)
                },
                _ => self.finish(Ok(())),
            },
            Event::InheritText(text) => self.inherit_read(text),
            Event::Picked(res) => match res {
                Err(e) => self.finish(Err(e)),
                Ok(m) => {
                    self.selections = m;
                    self.ask_path()
                },
            },
            Event::PathLine(res) => match res {
                Err(e) => self.finish(Err(e)),
                Ok(line) => match output_path_from_input(line.as_str()) {
                    Err(e) => self.finish(Err(e)),
                    Ok(p) => {
                        self.output_path = p;
                        self.check(Stage::PathKnown)
                    },
                },
            },
            Event::PathFacts { is_dir, exists, parent } => {
                if is_dir || exists {
                    match validate_output_path(self.output_path.as_str(), is_dir, exists, "", true) {
                        Err(e) => self.finish(Err(e)),
                        Ok(()) => self.finish(Ok(())),
                    }
                } else {
                    let dir = output_parent(opt_str(&parent));
                    self.parent = dir.clone();
                    self.stage = Stage::ProbingParent;
                    Request::ProbeParent(dir)
                }
            },
            Event::ParentFacts { is_dir } => {
                match validate_output_path(
                    self.output_path.as_str(),
                    false,
                    false,
                    self.parent.as_str(),
                    is_dir,
                ) {
                    Err(e) => self.finish(Err(e)),
                    Ok(()) => {
                        let content = self.manifest();
                        self.stage = Stage::Writing;
                        Request::Write(self.output_path.clone(), content)
                    },
                }
            },
            Event::Written(res) => match res {
                Err(e) => self.finish(Err(e)),
                Ok(()) => {
                    let line = string_of("Written to ").concat(self.output_path.as_str()).concat(".");
                    self.say(Stage::Finishing, line)
                },
            },
        }
    }

    /// The manifest of the selections.
    fn manifest(&self) -> (r: String)
        requires
            self.data_wf(),
        ensures
            r@ == package_xml_text(
                self.selections.keys(),
                member_views(self.selections.values()),
                self.api_version@,
            ),
    {
        let mut types: SortedMap<Vec<String>> = SortedMap::new();
        let mut i: usize = 0;
        while i < self.selections.len()
            invariant
                i <= self.selections.keys().len(),
                self.data_wf(),
                types.wf(),
                types.keys() == self.selections.keys().take(i as int),
                member_views(types.values()) == member_views(self.selections.values()).take(i as int),
            decreases self.selections.keys().len() - i,
        {
            let k = self.selections.key_at(i).clone();
            let v = crate::text::clone_strings(self.selections.value_at(i));
            let ghost before_keys = types.keys();
            let ghost before_vals = member_views(types.values());
            types.entries.push((k, v));
            proof {
                assert(types.keys() =~= before_keys.push(self.selections.keys()[i as int]));
                assert(types.keys() =~= self.selections.keys().take(i + 1));
                assert(member_views(types.values()) =~= member_views(self.selections.values()).take(i + 1));
                assert forall|a: int, b: int| 0 <= a < b < types.keys().len() implies crate::text::seq_lt(
                    types.keys()[a],
                    types.keys()[b],
                ) by {
                    assert(types.keys()[a] == self.selections.keys()[a]);
                    assert(types.keys()[b] == self.selections.keys()[b]);
                }
            }
            i = i + 1;
        }
        proof {
            assert(types.keys() =~= self.selections.keys());
            assert(member_views(types.values()) =~= member_views(self.selections.values()));
        }
        let input = PackageXmlInput { types, api_version: self.api_version.clone() };
        generate_package_xml(&input)
    }

    fn begin(&mut self) -> (req: Request)
        requires
            old(self).data_wf(),
        ensures
            final(self).wf(),
            began(*old(self), *final(self), req),
    {
        match validate_args(&self.args) {
            Err(e) => self.finish(Err(e)),
            Ok(()) => {
                self.stage = Stage::CheckingSf;
                Request::CheckSf
            },
        }
    }

    fn after_sf_check(&mut self) -> (req: Request)
        requires
            old(self).data_wf(),
        ensures
            final(self).wf(),
            after_sf_check(*old(self), *final(self), req),
    {
        match &self.args.inherit {
            Some(path) => {
                let p = path.clone();
                self.stage = Stage::ReadingInherit;
                Request::ReadInherit(p)
            },
            None => self.choose_version(),
        }
    }

    fn choose_version(&mut self) -> (req: Request)
        requires
            old(self).data_wf(),
        ensures
            final(self).wf(),
            version_chosen(*old(self), *final(self), req),
    {
        let given: Option<String> = match &self.args.api_version {
            Some(v) => Some(v.clone()),
            None => match &self.inherited {
                Some(p) => match &p.version {
                    Some(v) => Some(v.clone()),
                    None => None,
                },
                None => None,
            },
        };
        match given {
            Some(v) => {
                self.api_version = v;
                self.check(Stage::VersionKnown)
            },
            None => self.say(Stage::FetchingVersion, string_of("Fetching API version...")),
        }
    }

    fn inherit_read(&mut self, text: Result<String, AppError>) -> (req: Request)
        requires
            old(self).data_wf(),
            old(self).args.inherit is Some,
        ensures
            final(self).wf(),
            inherit_read(*old(self), text, *final(self), req),
    {
        match text {
            Err(e) => self.finish(Err(e)),
            Ok(t) => {
                let path = match &self.args.inherit {
                    Some(p) => p.clone(),
                    None => String::new(),
                };
                let parsed = parse_xml_content(t.as_str(), path.as_str());
                let ghost pr = parsed;
                assert(parse_outcome(t@, self.args.inherit->0@, pr));
                match parsed {
                    Err(e) => self.finish(Err(e)),
                    Ok(p) => {
                        assert(p.types.wf());
                        self.inherited = Some(p);
                        self.choose_version()
                    },
                }
            },
        }
    }

    fn version_fetched(&mut self, res: Result<OrgInfo, AppError>) -> (req: Request)
        requires
            old(self).data_wf(),
        ensures
            final(self).wf(),
            version_fetched(*old(self), res, *final(self), req),
    {
        match res {
            Err(e) => self.finish(Err(e)),
            Ok(info) => {
                self.api_version = info.api_version;
                self.check(Stage::VersionKnown)
            },
        }
    }

    fn types_fetched(&mut self, res: Result<Vec<MetadataType>, AppError>) -> (req: Request)
        requires
            old(self).wf(),
        ensures
            final(self).wf(),
            types_fetched(*old(self), res, *final(self), req),
    {
        match res {
            Err(e) => self.finish(Err(e)),
            Ok(ts) => {
                if ts.len() == 0 {
                    return self.finish(Err(AppError::NoMetadataTypes));
                }
                self.metadata_types = sort_metadata_types(ts);
                self.check(Stage::TypesKnown)
            },
        }
    }

    fn ask_path(&mut self) -> (req: Request)
        requires
            old(self).data_wf(),
        ensures
            final(self).wf(),
            path_asked(*old(self), *final(self), req),
    {
        match &self.args.output_file {
            Some(p) => {
                self.output_path = p.clone();
                self.check(Stage::PathKnown)
            },
            None => {
                self.stage = Stage::Prompting;
                Request::PromptPath
            },
        }
    }

    fn pick(&mut self) -> (req: Request)
        requires
            old(self).data_wf(),
        ensures
            final(self).wf(),
            picking(*old(self), *final(self), req),
    {
        let mut types: Vec<MetadataType> = Vec::new();
        let mut initial: SortedMap<Vec<String>> = SortedMap::new();
        std::mem::swap(&mut types, &mut self.metadata_types);
        std::mem::swap(&mut initial, &mut self.selections);
        self.stage = Stage::Picking;
        Request::Pick(types, initial)
    }

    fn say_warnings(&mut self, k: usize) -> (req: Request)
        requires
            old(self).data_wf(),
            old(self).stage != Stage::Announced && !(old(self).stage is InheritFetched) || old(self).inherited is Some,
        ensures
            final(self).wf(),
            warnings_from(*old(self), k as int, *final(self), req),
    {
        if k < self.warnings.len() {
            let line = string_of("Warning: ").concat(self.warnings[k].as_str());
            self.say(Stage::Warning(k), line)
        } else {
            self.pick()
        }
    }

    fn select(&mut self) -> (req: Request)
        requires
            old(self).data_wf(),
        ensures
            final(self).wf(),
            selecting(*old(self), *final(self), req),
    {
        if self.args.non_interactive {
            let given: Option<&[String]> = match &self.args.types {
                Some(t) => Some(t.as_slice()),
                None => None,
            };
            proof {
                assert(given_types(given) == types_view(self.args.types));
            }
            match selection_targets(self.metadata_types.as_slice(), self.args.all, given) {
                Err(e) => self.finish(Err(e)),
                Ok(t) => {
                    let ghost pre = *self;
                    self.targets = t;
                    self.selections = SortedMap::new();
                    proof {
                        assert(list_view(self.selections) =~= Map::<Seq<char>, Seq<Seq<char>>>::empty());
                        assert(*self == Generate { targets: self.targets, selections: self.selections, ..pre });
                    }
                    let ghost mid = *self;
                    let req = self.resolve_from(0);
                    assert(resolving_from(Generate { targets: mid.targets, selections: mid.selections, ..pre }, 0, *self, req));
                    req
                },
            }
        } else {
            let individual = match &self.inherited {
                None => {
                    return self.pick();
                },
                Some(p) => {
                    let mut found = false;
                    let mut i: usize = 0;
                    while i < p.types.len()
                        invariant
                            i <= p.types.keys().len(),
                            found == exists|j: int|
                                0 <= j < i && !is_wildcard_list(#[trigger] inherited_lists(*p)[j]),
                        decreases p.types.keys().len() - i,
                    {
                        if !is_wildcard_members(p.types.value_at(i).as_slice()) {
                            found = true;
                            assert(!is_wildcard_list(inherited_lists(*p)[i as int]));
                        }
                        i = i + 1;
                    }
                    found
                },
            };
            if individual {
                self.say(Stage::Announced, string_of("Fetching components for inherited types..."))
            } else {
                self.fetch_inherited(0)
            }
        }
    }

    fn fetch_inherited(&mut self, from: usize) -> (req: Request)
        requires
            old(self).data_wf(),
            old(self).inherited is Some,
        ensures
            final(self).wf(),
            fetching_from(*old(self), from as int, *final(self), req),
    {
        let org_names = xml_names(self.metadata_types.as_slice());
        let ghost p = self.inherited->0;
        let ghost org = type_names(self.metadata_types@);
        let n = match &self.inherited {
            Some(p) => p.types.len(),
            None => 0,
        };
        let mut i = from;
        while i < n
            invariant
                from <= i || n <= from,
                *self == *old(self),
                self.inherited == Some(p),
                org == type_names(self.metadata_types@),
                self.data_wf(),
                n == p.types.keys().len(),
                views(org_names@) == org,
                next_fetch(p, org, from as int) == next_fetch(p, org, i as int),
            decreases n - i,
        {
            let (name, fetch) = match &self.inherited {
                Some(pk) => {
                    assert(*pk == p);
                    let members = pk.types.value_at(i);
                    let name = pk.types.key_at(i).clone();
                    let fetch = !is_wildcard_members(members.as_slice()) && contains_str(&org_names, name.as_str());
                    (name, fetch)
                },
                None => (String::new(), false),
            };
            proof {
                assert(fetch == needs_fetch(p, org, i as int));
            }
            if fetch {
                assert(next_fetch(p, org, i as int) == Some(i as int));
                self.stage = Stage::FetchingInherited(i);
                return Request::ListMetadata(name, clone_opt(&self.args.target_org), self.api_version.clone());
            }
            i = i + 1;
        }
        let r = match &self.inherited {
            Some(pk) => resolve_inherited_selections(pk, &org_names, &self.org_components, &self.skipped),
            None => (SortedMap::new(), Vec::new()),
        };
        let (s, w) = r;
        let ghost gs = s;
        let ghost gw = w;
        let ghost pre = *self;
        self.selections = s;
        self.warnings = w;
        assert(*self == Generate { selections: gs, warnings: gw, ..pre });
        let req = self.say_warnings(0);
        assert(warnings_from(Generate { selections: gs, warnings: gw, ..pre }, 0, *self, req));
        req
    }

    fn inherited_listed(&mut self, i: usize, res: Result<Vec<MetadataComponent>, AppError>) -> (req: Request)
        requires
            old(self).wf(),
            old(self).stage == Stage::FetchingInherited(i),
        ensures
            final(self).wf(),
            final(self).stage == Stage::InheritFetched((i + 1) as usize),
            req == Request::CheckInterrupt,
            fetch_recorded(
                *old(self),
                old(self).inherited->0.types.keys()[i as int],
                res,
                Generate { stage: old(self).stage, ..*final(self) },
            ),
    {
        let (name, n) = match &self.inherited {
            Some(pk) => (pk.types.key_at(i).clone(), pk.types.len()),
            None => (String::new(), 0),
        };
        assert(i < n);
        let ghost g = res;
        let ghost pre = *self;
        let ghost nv = name@;
        match res {
            Ok(components) => {
                let ghost cs = components;
                let names = full_names(components);
                self.org_components.insert(name, names);
                assert(list_view(self.org_components) =~= list_view(pre.org_components).insert(
                    nv,
                    component_names(cs@),
                ));
            },
            Err(_) => {
                self.skipped.push(name);
                assert(views(self.skipped@) =~= views(pre.skipped@).push(nv));
            },
        }
        let ghost mid = *self;
        assert(fetch_recorded(pre, nv, g, mid));
        let req = self.check(Stage::InheritFetched(i + 1));
        assert(mid == Generate { stage: pre.stage, ..*self });
        req
    }

    fn resolve_from(&mut self, from: usize) -> (req: Request)
        requires
            old(self).data_wf(),
            from <= old(self).targets@.len(),
        ensures
            final(self).wf(),
            resolving_from(*old(self), from as int, *final(self), req),
    {
        let ghost pre = *self;
        let ghost ts = views(self.targets@);
        let j = add_wildcards(&mut self.selections, &self.targets, from);
        let ghost m = list_view(self.selections);
        assert(m == with_wildcards(list_view(pre.selections), ts, from as int, folder_or_end(ts, from as int)));
        if j < self.targets.len() {
            let name = self.targets[j].clone();
            self.stage = Stage::Resolving(j);
            let ghost s = self.selections;
            assert(next_folder(ts, from as int) == Some(j as int));
            assert(*self == Generate { stage: Stage::Resolving(j), selections: s, ..pre });
            let req = Request::ListMetadata(name, clone_opt(&self.args.target_org), self.api_version.clone());
            assert(self.selections.wf());
            assert(list_view(self.selections) == m);
            assert(lists_components(pre, ts[j as int], req));
            assert(*self == (Generate {
                stage: Stage::Resolving(j),
                selections: self.selections,
                ..pre
            }));
            req
        } else {
            let ghost s = self.selections;
            assert(*self == Generate { selections: s, ..pre });
            if self.selections.is_empty() {
                proof {
                    assert(m =~= Map::<Seq<char>, Seq<Seq<char>>>::empty());
                }
                let req = self.finish(Err(AppError::NoComponentsSelected));
                assert(finished(Generate { selections: s, ..pre }, *self, req, Err(AppError::NoComponentsSelected)));
                req
            } else {
                proof {
                    let k0 = s.keys()[0];
                    assert(s.has(k0));
                    assert(m.dom().contains(k0));
                    assert(m != Map::<Seq<char>, Seq<Seq<char>>>::empty());
                }
                let req = self.ask_path();
                assert(path_asked(Generate { selections: s, ..pre }, *self, req));
                req
            }
        }
    }

    fn resolve_listed(&mut self, i: usize, res: Result<Vec<MetadataComponent>, AppError>) -> (req: Request)
        requires
            old(self).wf(),
            old(self).stage == Stage::Resolving(i),
        ensures
            final(self).wf(),
            resolve_listed(*old(self), i as int, res, *final(self), req),
    {
        match res {
            Err(e) => self.finish(Err(e)),
            Ok(components) => {
                let ghost pre = *self;
                let ghost cs = components@;
                let n = self.targets.len();
                let name = self.targets[i].clone();
                add_components(&mut self.selections, name, components);
                let ghost s = self.selections;
                assert(*self == Generate { selections: s, ..pre });
                let req = self.resolve_from(i + 1);
                assert(resolving_from(Generate { selections: s, ..pre }, i + 1, *self, req));
                req
            },
        }
    }
}

/// A copy of an optional text.
fn clone_opt(o: &Option<String>) -> (r: Option<String>)
    ensures
        opt_view(r) == opt_view(*o),
{
    match o {
        Some(s) => Some(s.clone()),
        None => None,
    }
}


/// What `next_fetch` finds: the first inherited type from `from` on whose list is not
/// `["*"]` and which the org has; no type before it is such.
proof fn lemma_next_fetch_first(p: InheritedPackage, org: Seq<Seq<char>>, from: int)
    requires
        0 <= from,
    ensures
        match next_fetch(p, org, from) {
            Some(j) => from <= j < p.types.keys().len() && needs_fetch(p, org, j) && forall|k: int|
                from <= k < j ==> !needs_fetch(p, org, k),
            None => forall|k: int| from <= k < p.types.keys().len() ==> !needs_fetch(p, org, k),
        },
    decreases p.types.keys().len() - from,
{
    if from < p.types.keys().len() && !needs_fetch(p, org, from) {
        lemma_next_fetch_first(p, org, from + 1);
    }
}

/// The member list `ms` is exactly `["*"]`.
proof fn lemma_wildcard_list(ms: Seq<Seq<char>>)
    ensures
        is_wildcard_list(ms) <==> ms == seq![wildcard_text()],
{
    if is_wildcard_list(ms) {
        assert(ms =~= seq![wildcard_text()]);
    }
}

/// What resolution from target `from` on leaves: the targets up to the next
/// folder-based one (or all of them) selected with `*`, other selected types kept,
/// and the listing of that folder-based target asked for, if there is one.
proof fn lemma_resolving_from(g: Generate, from: int, post: Generate, req: Request)
    requires
        0 <= from <= g.targets@.len(),
        resolving_from(g, from, post, req),
    ensures
        post.targets == g.targets,
        forall|key: Seq<char>|
            !spec_supports_wildcard(key) ==> (#[trigger] list_view(post.selections).contains_key(key)
                == list_view(g.selections).contains_key(key) && (list_view(g.selections).contains_key(key)
                ==> list_view(post.selections)[key] == list_view(g.selections)[key])),
        match req {
            Request::ListMetadata(n, o, v) => exists|j: int|
                from <= j < views(g.targets@).len() && n@ == #[trigger] views(g.targets@)[j]
                    && !spec_supports_wildcard(views(g.targets@)[j]) && post.stage == Stage::Resolving(
                    j as usize,
                ) && opt_view(o) == opt_view(g.args.target_org) && v@ == g.api_version@ && forall|k: int|
                    from <= k < j ==> spec_supports_wildcard(#[trigger] views(g.targets@)[k])
                        && list_view(post.selections).contains_key(views(g.targets@)[k])
                        && list_view(post.selections)[views(g.targets@)[k]] == seq![wildcard_text()],
            _ => forall|k: int|
                from <= k < views(g.targets@).len() ==> spec_supports_wildcard(
                    #[trigger] views(g.targets@)[k],
                ) && list_view(post.selections).contains_key(views(g.targets@)[k])
                    && list_view(post.selections)[views(g.targets@)[k]] == seq![wildcard_text()],
        },
{
    let ts = views(g.targets@);
    let m0 = list_view(g.selections);
    let end = folder_or_end(ts, from);
    lemma_next_folder_first(ts, from);
    lemma_with_wildcards(m0, ts, from, end);
    let m = with_wildcards(m0, ts, from, end);
    assert forall|key: Seq<char>| !spec_supports_wildcard(key) implies !ts.subrange(from, end).contains(key) by {
        if ts.subrange(from, end).contains(key) {
            let i = choose|i: int| 0 <= i < ts.subrange(from, end).len() && #[trigger] ts.subrange(from, end)[i] == key;
            assert(ts[from + i] == key);
        }
    }
    let sel = list_view(post.selections);
    match next_folder(ts, from) {
        Some(j) => {
            assert(sel == m);
        },
        None => {
            if m == Map::<Seq<char>, Seq<Seq<char>>>::empty() {
                let s = choose|s: SortedMap<Vec<String>>|
                    s.wf() && list_view(s) == m && #[trigger] finished(
                        Generate { selections: s, ..g },
                        post,
                        req,
                        Err(AppError::NoComponentsSelected),
                    );
                assert(post.selections == s);
            } else {
                let s = choose|s: SortedMap<Vec<String>>|
                    s.wf() && list_view(s) == m && #[trigger] path_asked(Generate { selections: s, ..g }, post, req);
                assert(post.selections == s);
            }
            assert(sel == m);
        },
    }
}

/// Law: once the components of the folder-based non-interactive target at position
/// `i` are listed, that target is selected with them (when there are any), and resolution goes
/// on over every later target: each one up to the next folder-based target is
/// selected with `*` and the next request lists that folder-based target, in the
/// run's org and at its API version; resolution ends only when every later target
/// takes `*`, and then all of them are selected with it.
pub proof fn law_resolution_goes_on_after_listing(
    pre: Generate,
    i: usize,
    cs: Vec<MetadataComponent>,
    post: Generate,
    req: Request,
)
    requires
        pre.wf(),
        pre.stage == Stage::Resolving(i),
        !spec_supports_wildcard(views(pre.targets@)[i as int]),
        stepped(pre, Event::Components(Ok(cs)), post, req),
    ensures
        post.targets == pre.targets,
        component_names(cs@).len() > 0 ==> list_view(post.selections).contains_key(views(pre.targets@)[i as int])
            && list_view(post.selections)[views(pre.targets@)[i as int]] == component_names(cs@),
        match req {
            Request::ListMetadata(n, o, v) => exists|j: int|
                i < j < views(pre.targets@).len() && n@ == #[trigger] views(pre.targets@)[j]
                    && !spec_supports_wildcard(views(pre.targets@)[j]) && post.stage == Stage::Resolving(
                    j as usize,
                ) && opt_view(o) == opt_view(pre.args.target_org) && v@ == pre.api_version@
                    && forall|k: int|
                    i < k < j ==> spec_supports_wildcard(#[trigger] views(pre.targets@)[k])
                        && list_view(post.selections).contains_key(views(pre.targets@)[k])
                        && list_view(post.selections)[views(pre.targets@)[k]] == seq![wildcard_text()],
            _ => forall|k: int|
                i < k < views(pre.targets@).len() ==> spec_supports_wildcard(
                    #[trigger] views(pre.targets@)[k],
                ) && list_view(post.selections).contains_key(views(pre.targets@)[k])
                    && list_view(post.selections)[views(pre.targets@)[k]] == seq![wildcard_text()],
        },
{
    let ts = views(pre.targets@);
    let s = choose|s: SortedMap<Vec<String>>|
        s.wf() && list_view(s) == with_components(list_view(pre.selections), ts[i as int], cs@)
            && #[trigger] resolving_from(Generate { selections: s, ..pre }, i + 1, post, req);
    let g = Generate { selections: s, ..pre };
    lemma_resolving_from(g, i + 1, post, req);
}

/// Law: non-interactive resolution starts from the validated targets: each target
/// before the first folder-based one is selected with `*` and the first request lists
/// that folder-based target, in the run's org and at its API version; when there is
/// none, every target is selected with `*`.
pub proof fn law_resolution_starts_with_every_target(
    pre: Generate,
    ts: Seq<Seq<char>>,
    post: Generate,
    req: Request,
)
    requires
        pre.wf(),
        pre.stage == Stage::TypesKnown,
        pre.args.non_interactive,
        target_names(pre.metadata_types@, pre.args.all, types_view(pre.args.types)) == Ok::<
            Seq<Seq<char>>,
            Seq<char>,
        >(ts),
        stepped(pre, Event::Interrupt(false), post, req),
    ensures
        views(post.targets@) == ts,
        match req {
            Request::ListMetadata(n, o, v) => exists|j: int|
                0 <= j < ts.len() && n@ == #[trigger] ts[j] && !spec_supports_wildcard(ts[j])
                    && post.stage == Stage::Resolving(j as usize) && opt_view(o) == opt_view(
                    pre.args.target_org,
                ) && v@ == pre.api_version@ && forall|k: int|
                    0 <= k < j ==> spec_supports_wildcard(#[trigger] ts[k]) && list_view(
                        post.selections,
                    ).contains_key(ts[k]) && list_view(post.selections)[ts[k]] == seq![wildcard_text()],
            _ => forall|k: int|
                0 <= k < ts.len() ==> spec_supports_wildcard(#[trigger] ts[k]) && list_view(
                    post.selections,
                ).contains_key(ts[k]) && list_view(post.selections)[ts[k]] == seq![wildcard_text()],
        },
{
    let (t, s) = choose|t: Vec<String>, s: SortedMap<Vec<String>>|
        views(t@) == ts && s.wf() && list_view(s) == Map::<Seq<char>, Seq<Seq<char>>>::empty()
            && #[trigger] resolving_from(Generate { targets: t, selections: s, ..pre }, 0, post, req);
    let g = Generate { targets: t, selections: s, ..pre };
    lemma_resolving_from(g, 0, post, req);
}

/// Law: the components of inherited types are fetched in order, one for each type
/// whose member list is not `["*"]` and which the org has. After "Fetching components
/// ..." is said (from the first type on) or after the interrupt check that follows the
/// fetch of the type before position `from`, the next request lists the first such
/// type from `from` on, in the run's org and at its API version; the inherited
/// selections are resolved only when no such type is left.
pub proof fn law_inherited_types_fetched_in_order(
    pre: Generate,
    from: usize,
    e: Event,
    post: Generate,
    req: Request,
)
    requires
        pre.inherited is Some,
        (pre.stage == Stage::Announced && e is Said && from == 0) || (pre.stage
            == Stage::InheritFetched(from) && e == Event::Interrupt(false)),
        stepped(pre, e, post, req),
    ensures
        match req {
            Request::ListMetadata(n, o, v) => exists|j: int|
                from <= j < pre.inherited->0.types.keys().len() && n@ == #[trigger] pre.inherited->0.types.keys()[j]
                    && inherited_lists(pre.inherited->0)[j] != seq![wildcard_text()] && type_names(
                    pre.metadata_types@,
                ).contains(n@) && post.stage == Stage::FetchingInherited(j as usize) && opt_view(o)
                    == opt_view(pre.args.target_org) && v@ == pre.api_version@ && forall|k: int|
                    from <= k < j ==> inherited_lists(pre.inherited->0)[k] == seq![wildcard_text()]
                        || !type_names(pre.metadata_types@).contains(
                        #[trigger] pre.inherited->0.types.keys()[k],
                    ),
            _ => forall|k: int|
                from <= k < pre.inherited->0.types.keys().len() ==> inherited_lists(pre.inherited->0)[k]
                    == seq![wildcard_text()] || !type_names(pre.metadata_types@).contains(
                    #[trigger] pre.inherited->0.types.keys()[k],
                ),
        },
{
    let p = pre.inherited->0;
    let org = type_names(pre.metadata_types@);
    lemma_next_fetch_first(p, org, from as int);
    assert forall|k: int| 0 <= k < inherited_lists(p).len() implies (#[trigger] needs_fetch(p, org, k) <==> (
    inherited_lists(p)[k] != seq![wildcard_text()] && org.contains(p.types.keys()[k]))) by {
        lemma_wildcard_list(inherited_lists(p)[k]);
    }
    if pre.stage == Stage::Announced {
        assert(fetching_from(pre, 0, post, req));
    } else {
        assert(fetching_from(pre, from as int, post, req));
    }
    match next_fetch(p, org, from as int) {
        Some(j) => {
            assert(needs_fetch(p, org, j));
            assert forall|k: int| from <= k < j implies inherited_lists(p)[k] == seq![wildcard_text()]
                || !org.contains(#[trigger] p.types.keys()[k]) by {
                assert(!needs_fetch(p, org, k));
            }
            assert(post.stage == Stage::FetchingInherited(j as usize));
            match req {
                Request::ListMetadata(n, o, v) => {
                    assert(n@ == p.types.keys()[j]);
                },
                _ => {},
            }
        },
        None => {
            assert forall|k: int| from <= k < p.types.keys().len() implies inherited_lists(p)[k] == seq![wildcard_text()]
                || !org.contains(#[trigger] p.types.keys()[k]) by {
                assert(!needs_fetch(p, org, k));
            }
            match req {
                Request::ListMetadata(n, o, v) => {
                    let (s, w) = choose|s: SortedMap<Vec<String>>, w: Vec<String>|
                        #[trigger] warnings_from(Generate { selections: s, warnings: w, ..pre }, 0, post, req)
                            && s.wf();
                    assert(false);
                },
                _ => {},
            }
        },
    }
}

/// Law: the reply to the fetch of the inherited type at position `i` is recorded (its
/// components, or the type as skipped), and after the interrupt check that follows,
/// the next request lists the first type after `i` whose member list is not `["*"]`
/// and which the org has; the inherited selections are resolved only when no such
/// type is left.
pub proof fn law_inherited_fetch_recorded_then_next(
    pre: Generate,
    i: usize,
    res: Result<Vec<MetadataComponent>, AppError>,
    mid: Generate,
    req1: Request,
    post: Generate,
    req2: Request,
)
    requires
        pre.wf(),
        pre.stage == Stage::FetchingInherited(i),
        i < usize::MAX,
        stepped(pre, Event::Components(res), mid, req1),
        stepped(mid, Event::Interrupt(false), post, req2),
    ensures
        mid.inherited == pre.inherited,
        match res {
            Ok(cs) => list_view(mid.org_components) == list_view(pre.org_components).insert(
                pre.inherited->0.types.keys()[i as int],
                component_names(cs@),
            ),
            Err(_) => views(mid.skipped@) == views(pre.skipped@).push(pre.inherited->0.types.keys()[i as int]),
        },
        match req2 {
            Request::ListMetadata(n, o, v) => exists|j: int|
                i < j < pre.inherited->0.types.keys().len() && n@ == #[trigger] pre.inherited->0.types.keys()[j]
                    && inherited_lists(pre.inherited->0)[j] != seq![wildcard_text()] && type_names(
                    pre.metadata_types@,
                ).contains(n@) && opt_view(o) == opt_view(pre.args.target_org) && v@ == pre.api_version@
                    && forall|k: int|
                    i < k < j ==> inherited_lists(pre.inherited->0)[k] == seq![wildcard_text()]
                        || !type_names(pre.metadata_types@).contains(
                        #[trigger] pre.inherited->0.types.keys()[k],
                    ),
            _ => forall|k: int|
                i < k < pre.inherited->0.types.keys().len() ==> inherited_lists(pre.inherited->0)[k]
                    == seq![wildcard_text()] || !type_names(pre.metadata_types@).contains(
                    #[trigger] pre.inherited->0.types.keys()[k],
                ),
        },
{
    assert(mid.stage == Stage::InheritFetched((i + 1) as usize));
    assert(fetch_recorded(pre, pre.inherited->0.types.keys()[i as int], res, Generate { stage: pre.stage, ..mid }));
    assert(mid.metadata_types == pre.metadata_types);
    law_inherited_types_fetched_in_order(mid, (i + 1) as usize, Event::Interrupt(false), post, req2);
}

} // verus!
