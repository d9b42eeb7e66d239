//! YouTrack: its work items, and the requests that read and add them.

use vstd::prelude::*;
use vstd::utf8::encode_utf8;

use crate::clock::{
    day_at_offset, day_start_ms, is_offset, local_offset_at, now_utc, read_start, started_moment,
    Moment,
};
use crate::config::AppConfig;
use crate::http::{bearer, check_header_text, is_header_text, Reply};
use crate::percent::{percent_encoded, urlencoding_encode};
use crate::sorting::{
    is_sorted_by, law_sorted_keys_ascend, law_sorting_keeps_the_items, sort_by_keys,
};
use crate::string_map::StringMap;
use crate::text::{
    contains_text, err_text, has_piece, law_trailing_run_is_stripped, join2, join3, join4, join5, lowercase, nat_text, opt_text,
    outcome_text, stands_at, strip_trailing, text_eq, text_le, texts, u64_text, without_trailing,
};

verus! {

/// A work item of an issue. Its date is in milliseconds since the Unix epoch.
#[derive(Debug, Clone)]
pub struct WorkItem {
    pub id: String,
    pub date: i64,
    pub duration: WorkItemDuration,
    pub text: String,
}

/// How long a work item lasted.
#[derive(Debug, Clone)]
pub struct WorkItemDuration {
    pub minutes: i64,
}

impl Default for WorkItemDuration {
    fn default() -> (r: WorkItemDuration)
        ensures
            r.minutes == 0,
    {
        WorkItemDuration { minutes: 0 }
    }
}

/// A type of work items, such as development or testing.
#[derive(Debug, Clone)]
pub struct WorkItemType {
    pub id: String,
    pub name: String,
}

/// Forgets which issues the keys stand for.
pub fn clear_alias_cache(cache: &mut StringMap)
    ensures
        final(cache)@ == Map::<Seq<char>, Seq<char>>::empty(),
{
    cache.clear();
}

/// The address and the token of the settings.
pub open spec fn connection(cfg: AppConfig) -> Result<(Seq<char>, Seq<char>), Seq<char>> {
    if cfg.youtrack_base_url@.len() == 0 {
        Err("YouTrack base URL not set"@)
    } else if cfg.youtrack_token@.len() == 0 {
        Err("YouTrack token not set"@)
    } else {
        Ok((without_trailing(cfg.youtrack_base_url@, '/'), cfg.youtrack_token@))
    }
}

/// The address and the token of the settings.
pub fn config_async(cfg: &AppConfig) -> (r: Result<(String, String), String>)
    ensures
        match r {
            Ok((base, token)) => connection(*cfg) == Ok::<(Seq<char>, Seq<char>), Seq<char>>(
                (base@, token@),
            ),
            Err(e) => connection(*cfg) == Err::<(Seq<char>, Seq<char>), Seq<char>>(e@),
        },
{
    if cfg.youtrack_base_url.as_str().is_empty() {
        return Err("YouTrack base URL not set".to_owned());
    }
    if cfg.youtrack_token.as_str().is_empty() {
        return Err("YouTrack token not set".to_owned());
    }
    Ok((strip_trailing(cfg.youtrack_base_url.as_str(), '/'), cfg.youtrack_token.clone()))
}

/// The headers of a request.
pub struct Headers {
    pub authorization: String,
    pub content_type: &'static str,
}

/// Whether headers are those for a token.
pub open spec fn carries(h: Headers, token: Seq<char>) -> bool {
    &&& h.authorization@ == "Bearer "@ + token
    &&& h.content_type@ == "application/json"@
}

/// Whether a token can stand in a header.
pub open spec fn is_token(token: Seq<char>) -> bool {
    is_header_text("Bearer "@ + token)
}

/// The message for a token that cannot stand in a header.
pub open spec fn bad_token() -> Seq<char> {
    "Invalid YouTrack token: "@ + "failed to parse header value"@
}

/// The headers for a token.
pub fn auth_headers(token: &str) -> (r: Result<Headers, String>)
    ensures
        match r {
            Ok(h) => is_token(token@) && carries(h, token@),
            Err(e) => !is_token(token@) && e@ == bad_token(),
        },
{
    let value = bearer(token);
    match check_header_text(value.as_str()) {
        Ok(_) => Ok(Headers { authorization: value, content_type: "application/json" }),
        Err(e) => Err(join2("Invalid YouTrack token: ", e.as_str())),
    }
}

/// A request for something at an address.
pub struct Request {
    pub url: String,
    pub headers: Headers,
}

/// Whether `r` is the request to `url` with `token`, or the message that there
/// can be none.
pub open spec fn is_request(r: Result<Request, String>, url: Seq<char>, token: Seq<char>) -> bool {
    match r {
        Ok(q) => is_token(token) && q.url@ == url && carries(q.headers, token),
        Err(e) => !is_token(token) && e@ == bad_token(),
    }
}

fn request(url: String, token: &str) -> (r: Result<Request, String>)
    ensures
        is_request(r, url@, token@),
{
    match auth_headers(token) {
        Ok(headers) => Ok(Request { url, headers }),
        Err(e) => Err(e),
    }
}

/// The request for the types of work items, of all projects at once.
pub fn types_request(base: &str, token: &str) -> (r: Result<Request, String>)
    ensures
        is_request(
            r,
            base@ + "/api/admin/timeTrackingSettings/workItemTypes?fields=id,name"@,
            token@,
        ),
{
    request(join2(base, "/api/admin/timeTrackingSettings/workItemTypes?fields=id,name"), token)
}

/// The request for the types of work items of each project.
pub fn projects_request(base: &str, token: &str) -> (r: Result<Request, String>)
    ensures
        is_request(
            r,
            base@ + "/api/admin/projects?fields=timeTrackingSettings(workItemTypes(id,name))"@,
            token@,
        ),
{
    request(
        join2(base, "/api/admin/projects?fields=timeTrackingSettings(workItemTypes(id,name))"),
        token,
    )
}

/// The names that types are sorted by.
pub open spec fn sort_names(types: Seq<WorkItemType>) -> Seq<Seq<char>> {
    Seq::new(types.len(), |i: int| lowercase(types[i].name@))
}

/// Sorts types by their names, upper and lower case alike.
pub fn sort_types(types: Vec<WorkItemType>) -> (r: Vec<WorkItemType>)
    ensures
        is_sorted_by(types@, sort_names(types@), r@),
{
    let mut names: Vec<String> = Vec::new();
    let mut i: usize = 0;
    while i < types.len()
        invariant
            i <= types@.len(),
            names@.len() == i,
            forall|j: int| 0 <= j < i ==> (#[trigger] names@[j])@ == lowercase(types@[j].name@),
        decreases types.len() - i,
    {
        names.push(types[i].name.as_str().to_lowercase());
        i = i + 1;
    }
    assert(texts(names@) =~= sort_names(types@));
    sort_by_keys(types, names)
}

/// How the question for the types of work items goes on.
pub enum TypesStep {
    /// Ask each project for its types: the list of all of them was refused.
    AskProjects,
    /// It is over.
    Done(Result<Vec<WorkItemType>, String>),
}

/// Decides how the question for the types of work items goes on.
pub fn get_work_item_types(reply: Reply<Vec<WorkItemType>>) -> (r: TypesStep)
    ensures
        match reply {
            Reply::Unreachable(e) => r == TypesStep::Done(Err(e)),
            Reply::Refused { .. } => r == TypesStep::AskProjects,
            Reply::Garbled(e) => r == TypesStep::Done(Err(e)),
            Reply::Delivered(types) => r matches TypesStep::Done(Ok(list)) && is_sorted_by(
                types@,
                sort_names(types@),
                list@,
            ),
        },
{
    match reply {
        Reply::Unreachable(e) => TypesStep::Done(Err(e)),
        Reply::Refused { .. } => TypesStep::AskProjects,
        Reply::Garbled(e) => TypesStep::Done(Err(e)),
        Reply::Delivered(types) => TypesStep::Done(Ok(sort_types(types))),
    }
}

/// Whether one of `types` has this id.
pub open spec fn id_in(types: Seq<WorkItemType>, id: Seq<char>) -> bool {
    exists|i: int| 0 <= i < types.len() && (#[trigger] types[i]).id@ == id
}

/// `found` and then those of `more`, each whose id is not there yet.
pub open spec fn with_types(found: Seq<WorkItemType>, more: Seq<WorkItemType>) -> Seq<WorkItemType>
    decreases more.len(),
{
    if more.len() == 0 {
        found
    } else {
        let before = with_types(found, more.drop_last());
        if id_in(before, more.last().id@) {
            before
        } else {
            before.push(more.last())
        }
    }
}

/// The types of all projects, in order; of each id the first.
pub open spec fn project_types(projects: Seq<Option<Vec<WorkItemType>>>) -> Seq<WorkItemType>
    decreases projects.len(),
{
    if projects.len() == 0 {
        seq![]
    } else {
        match projects.last() {
            Some(types) => with_types(project_types(projects.drop_last()), types@),
            None => project_types(projects.drop_last()),
        }
    }
}

fn knows_id(types: &Vec<WorkItemType>, id: &str) -> (r: bool)
    ensures
        r == id_in(types@, id@),
{
    let mut i: usize = 0;
    while i < types.len()
        invariant
            i <= types@.len(),
            forall|j: int| 0 <= j < i ==> (#[trigger] types@[j]).id@ != id@,
        decreases types.len() - i,
    {
        if text_eq(types[i].id.as_str(), id) {
            return true;
        }
        i = i + 1;
    }
    false
}

fn add_types(found: &mut Vec<WorkItemType>, more: Vec<WorkItemType>)
    ensures
        final(found)@ == with_types(old(found)@, more@),
{
    let ghost before = found@;
    let ghost all = more@;
    for t in it: more
        invariant
            it.seq() == all,
            found@ == with_types(before, all.take(it.index() as int)),
    {
        assert(all.take(it.index() + 1).drop_last() =~= all.take(it.index() as int));
        if !knows_id(found, t.id.as_str()) {
            found.push(t);
        }
    }
    assert(all.take(all.len() as int) =~= all);
}

fn merge_types(projects: Vec<Option<Vec<WorkItemType>>>) -> (r: Vec<WorkItemType>)
    ensures
        r@ == project_types(projects@),
{
    let ghost all = projects@;
    let mut out: Vec<WorkItemType> = Vec::new();
    for p in it: projects
        invariant
            it.seq() == all,
            out@ == project_types(all.take(it.index() as int)),
    {
        assert(all.take(it.index() + 1).drop_last() =~= all.take(it.index() as int));
        if let Some(types) = p {
            add_types(&mut out, types);
        }
    }
    assert(all.take(all.len() as int) =~= all);
    out
}

/// The types of work items, from what each project answered. A project without
/// time tracking has no list.
pub fn get_project_types(reply: Reply<Vec<Option<Vec<WorkItemType>>>>) -> (r: Result<
    Vec<WorkItemType>,
    String,
>)
    ensures
        match reply {
            Reply::Unreachable(e) => r == Err::<Vec<WorkItemType>, String>(e),
            Reply::Refused { status, .. } => r matches Err(e) && e@
                == "Failed to load YouTrack work item types ("@ + status@ + ")"@,
            Reply::Garbled(e) => r == Err::<Vec<WorkItemType>, String>(e),
            Reply::Delivered(projects) => r matches Ok(list) && is_sorted_by(
                project_types(projects@),
                sort_names(project_types(projects@)),
                list@,
            ),
        },
{
    match reply {
        Reply::Unreachable(e) => Err(e),
        Reply::Refused { status, .. } => Err(
            join3("Failed to load YouTrack work item types (", status.as_str(), ")"),
        ),
        Reply::Garbled(e) => Err(e),
        Reply::Delivered(projects) => Ok(sort_types(merge_types(projects))),
    }
}

/// Whether the ids of `types` are all different.
pub open spec fn ids_differ(types: Seq<WorkItemType>) -> bool {
    forall|i: int, j: int|
        0 <= i < j < types.len() ==> (#[trigger] types[i]).id@ != (#[trigger] types[j]).id@
}

proof fn lemma_with_types(found: Seq<WorkItemType>, more: Seq<WorkItemType>, id: Seq<char>)
    requires
        ids_differ(found),
    ensures
        ids_differ(with_types(found, more)),
        id_in(with_types(found, more), id) == (id_in(found, id) || id_in(more, id)),
    decreases more.len(),
{
    if more.len() > 0 {
        let less = more.drop_last();
        let before = with_types(found, less);
        let last = more.last();
        lemma_with_types(found, less, id);
        if id_in(more, id) {
            let i = choose|i: int| 0 <= i < more.len() && (#[trigger] more[i]).id@ == id;
            if i < less.len() {
                assert(less[i].id@ == id);
            }
        }
        if id_in(less, id) {
            let i = choose|i: int| 0 <= i < less.len() && (#[trigger] less[i]).id@ == id;
            assert(more[i].id@ == id);
        }
        assert(more[more.len() - 1] == last);
        if !id_in(before, last.id@) {
            let after = before.push(last);
            assert(after[before.len() as int] == last);
            if id_in(before, id) {
                let i = choose|i: int| 0 <= i < before.len() && (#[trigger] before[i]).id@ == id;
                assert(after[i].id@ == id);
            }
            if id_in(after, id) {
                let i = choose|i: int| 0 <= i < after.len() && (#[trigger] after[i]).id@ == id;
                if i < before.len() {
                    assert(before[i].id@ == id);
                }
            }
        }
    }
}

/// Whether one of the projects lists a type with this id.
pub open spec fn id_listed(projects: Seq<Option<Vec<WorkItemType>>>, id: Seq<char>) -> bool {
    exists|i: int|
        0 <= i < projects.len() && (#[trigger] projects[i] matches Some(types) && id_in(
            types@,
            id,
        ))
}

/// Of the types that the projects list, each id is there, and once only.
pub proof fn law_each_type_once(projects: Seq<Option<Vec<WorkItemType>>>, id: Seq<char>)
    ensures
        ids_differ(project_types(projects)),
        id_in(project_types(projects), id) == id_listed(projects, id),
    decreases projects.len(),
{
    if projects.len() > 0 {
        let less = projects.drop_last();
        law_each_type_once(less, id);
        if id_listed(less, id) {
            let i = choose|i: int|
                0 <= i < less.len() && (#[trigger] less[i] matches Some(types) && id_in(
                    types@,
                    id,
                ));
            assert(projects[i] == less[i]);
        }
        if id_listed(projects, id) {
            let i = choose|i: int|
                0 <= i < projects.len() && (#[trigger] projects[i] matches Some(types) && id_in(
                    types@,
                    id,
                ));
            if i < less.len() {
                assert(less[i] == projects[i]);
            }
        }
        assert(projects[projects.len() - 1] == projects.last());
        if let Some(types) = projects.last() {
            lemma_with_types(project_types(less), types@, id);
        }
    }
}

/// The request that a connection is tested with.
pub fn me_request(base: &str, token: &str) -> (r: Result<Request, String>)
    ensures
        is_request(r, base@ + "/api/users/me?fields=login"@, token@),
{
    request(join2(base, "/api/users/me?fields=login"), token)
}

/// What testing the connection came to.
pub fn test_connection(reply: Reply<()>) -> (r: Result<(), String>)
    ensures
        err_text(r) == (match reply {
            Reply::Unreachable(e) => Err::<(), Seq<char>>("YouTrack connection failed: "@ + e@),
            Reply::Refused { status, .. } => Err::<(), Seq<char>>(
                "YouTrack auth failed ("@ + status@ + ")"@,
            ),
            _ => Ok::<(), Seq<char>>(()),
        }),
{
    match reply {
        Reply::Unreachable(e) => Err(join2("YouTrack connection failed: ", e.as_str())),
        Reply::Refused { status, .. } => Err(
            join3("YouTrack auth failed (", status.as_str(), ")"),
        ),
        _ => Ok(()),
    }
}

/// How the question which issue a key stands for goes on.
pub enum ResolveStep {
    /// Ask for the issue of this key.
    Look(Request),
    /// Search for the issue that the key was migrated to.
    Search(Request),
    /// It is over.
    Done(Result<String, String>),
}

/// The address of the issue of a key.
pub open spec fn issue_url(base: Seq<char>, issue_key: Seq<char>) -> Seq<char> {
    base + "/api/issues/"@ + issue_key + "?fields=idReadable"@
}

/// The address of the search for the issue that a key was migrated to.
pub open spec fn search_url(base: Seq<char>, issue_key: Seq<char>) -> Seq<char> {
    base + "/api/issues?fields=idReadable&$top=5&query="@ + percent_encoded(
        encode_utf8("Migrated from JIRA: "@ + issue_key),
    )
}

/// The issue that a key is known to stand for.
pub open spec fn known_issue(cache: Map<Seq<char>, Seq<char>>, issue_key: Seq<char>) -> Option<
    Seq<char>,
> {
    if cache.contains_key(issue_key) {
        Some(cache[issue_key])
    } else {
        None
    }
}

/// Begins the question which issue a key stands for. The key may be a foreign
/// one, of the tracker that the issue was migrated from. What is known already
/// is not asked again.
pub fn resolve_issue_id(cache: &StringMap, cfg: &AppConfig, issue_key: &str) -> (r: ResolveStep)
    ensures
        match known_issue(cache@, issue_key@) {
            Some(known) => r matches ResolveStep::Done(Ok(id)) && id@ == known,
            None => match connection(*cfg) {
                Err(e) => r matches ResolveStep::Done(Err(m)) && m@ == e,
                Ok((base, token)) => match r {
                    ResolveStep::Look(q) => is_request(
                        Ok(q),
                        issue_url(base, issue_key@),
                        token,
                    ),
                    ResolveStep::Search(_) => false,
                    ResolveStep::Done(result) => result matches Err(m) && !is_token(token) && m@
                        == bad_token(),
                },
            },
        },
{
    if let Some(id) = cache.get(issue_key) {
        return ResolveStep::Done(Ok(id));
    }
    match config_async(cfg) {
        Err(e) => ResolveStep::Done(Err(e)),
        Ok((base, token)) => {
            let url = join4(base.as_str(), "/api/issues/", issue_key, "?fields=idReadable");
            match request(url, token.as_str()) {
                Ok(q) => ResolveStep::Look(q),
                Err(e) => ResolveStep::Done(Err(e)),
            }
        },
    }
}

/// Goes on after the reply to [`ResolveStep::Look`], with the readable id of
/// the issue. A key that YouTrack knows stands for itself, whatever the id. One
/// that it refuses is searched for.
pub fn accept_issue(
    cache: &mut StringMap,
    base: &str,
    token: &str,
    issue_key: &str,
    reply: Reply<String>,
) -> (r: ResolveStep)
    ensures
        match reply {
            Reply::Unreachable(e) => r == ResolveStep::Done(Err(e)) && final(cache)@ == old(cache)@,
            Reply::Garbled(e) => r == ResolveStep::Done(Err(e)) && final(cache)@ == old(cache)@,
            Reply::Refused { .. } => final(cache)@ == old(cache)@ && (match r {
                ResolveStep::Search(q) => is_request(
                    Ok(q),
                    search_url(base@, issue_key@),
                    token@,
                ),
                ResolveStep::Look(_) => false,
                ResolveStep::Done(result) => result matches Err(m) && !is_token(token@) && m@
                    == bad_token(),
            }),
            Reply::Delivered(_) => {
                &&& final(cache)@ == old(cache)@.insert(issue_key@, issue_key@)
                &&& r matches ResolveStep::Done(Ok(found)) && found@ == issue_key@
            },
        },
{
    match reply {
        Reply::Unreachable(e) => ResolveStep::Done(Err(e)),
        Reply::Garbled(e) => ResolveStep::Done(Err(e)),
        Reply::Refused { .. } => {
            let query = join2("Migrated from JIRA: ", issue_key);
            let code = urlencoding_encode(query.as_str());
            let url = join3(
                base,
                "/api/issues?fields=idReadable&$top=5&query=",
                code.as_str(),
            );
            match request(url, token) {
                Ok(q) => ResolveStep::Search(q),
                Err(e) => ResolveStep::Done(Err(e)),
            }
        },
        Reply::Delivered(_) => {
            cache.insert(issue_key.to_owned(), issue_key.to_owned());
            ResolveStep::Done(Ok(issue_key.to_owned()))
        },
    }
}

/// The first text of a list that is not empty.
pub open spec fn first_filled(list: Seq<Seq<char>>) -> Option<Seq<char>>
    decreases list.len(),
{
    if list.len() == 0 {
        None
    } else if list.first().len() > 0 {
        Some(list.first())
    } else {
        first_filled(list.drop_first())
    }
}

fn pick_filled(list: Vec<String>) -> (r: Option<String>)
    ensures
        opt_text(r) == first_filled(texts(list@)),
{
    let ghost words = texts(list@);
    let mut i: usize = 0;
    assert(words.skip(0) =~= words);
    while i < list.len()
        invariant
            i <= list@.len(),
            words == texts(list@),
            first_filled(words) == first_filled(words.skip(i as int)),
        decreases list.len() - i,
    {
        if !list[i].as_str().is_empty() {
            return Some(list[i].clone());
        }
        assert(words.skip(i as int).drop_first() =~= words.skip(i + 1));
        i = i + 1;
    }
    None
}

/// What the search for a migrated issue came to.
pub open spec fn search_result(issue_key: Seq<char>, reply: Reply<Vec<String>>) -> Result<
    Seq<char>,
    Seq<char>,
> {
    match reply {
        Reply::Unreachable(e) => Err(e@),
        Reply::Refused { status, .. } => Err(
            "YouTrack issue '"@ + issue_key + "' not found and search failed ("@ + status@ + ")"@,
        ),
        Reply::Garbled(e) => Err(e@),
        Reply::Delivered(ids) => match first_filled(texts(ids@)) {
            Some(id) => Ok(id),
            None => Err(
                "YouTrack issue '"@ + issue_key + "' not found (no migration alias either)"@,
            ),
        },
    }
}

/// Takes the reply to [`ResolveStep::Search`], with the readable ids of the
/// issues that were found. The first one that is not empty is kept.
pub fn accept_search(cache: &mut StringMap, issue_key: &str, reply: Reply<Vec<String>>) -> (r:
    Result<String, String>)
    ensures
        outcome_text(r) == search_result(issue_key@, reply),
        match r {
            Ok(id) => final(cache)@ == old(cache)@.insert(issue_key@, id@),
            Err(_) => final(cache)@ == old(cache)@,
        },
{
    match reply {
        Reply::Unreachable(e) => Err(e),
        Reply::Refused { status, .. } => Err(
            join5(
                "YouTrack issue '",
                issue_key,
                "' not found and search failed (",
                status.as_str(),
                ")",
            ),
        ),
        Reply::Garbled(e) => Err(e),
        Reply::Delivered(ids) => match pick_filled(ids) {
            Some(id) => {
                cache.insert(issue_key.to_owned(), id.clone());
                Ok(id)
            },
            None => Err(
                join3("YouTrack issue '", issue_key, "' not found (no migration alias either)"),
            ),
        },
    }
}

/// Once it was found out which issue a key stands for, it is not asked again
/// until the settings change. What is known of other keys stays.
pub proof fn law_resolved_key_is_remembered(
    cache: Map<Seq<char>, Seq<char>>,
    issue_key: Seq<char>,
    id: Seq<char>,
    other: Seq<char>,
)
    ensures
        known_issue(cache.insert(issue_key, id), issue_key) == Some(id),
        other != issue_key ==> known_issue(cache.insert(issue_key, id), other) == known_issue(
            cache,
            other,
        ),
        known_issue(Map::empty(), issue_key) is None,
{
}

/// How many work items are asked for at a time.
pub const PAGE: usize = 200;

/// Work items that are being read page by page.
pub struct Paging {
    all: Vec<WorkItem>,
    skip: usize,
}

/// How reading work items goes on.
pub enum PageStep {
    /// Ask for the next page.
    More(Paging),
    /// It is over.
    Done(Result<Vec<WorkItem>, String>),
}

/// The address of a page of the work items of an issue.
pub open spec fn page_url(base: Seq<char>, issue: Seq<char>, skip: nat) -> Seq<char> {
    base + "/api/issues/"@ + issue
        + "/timeTracking/workItems?fields=id,date,duration(minutes),text&$top=200&$skip="@
        + nat_text(skip)
}

impl Paging {
    /// What has been read so far.
    pub closed spec fn items(self) -> Seq<WorkItem> {
        self.all@
    }

    /// How many work items the next page begins after.
    pub closed spec fn skipped(self) -> nat {
        self.skip as nat
    }

    #[verifier::type_invariant]
    spec fn has_what_is_skipped(self) -> bool {
        self.skip <= self.all@.len()
    }

    /// Nothing has been read.
    pub fn start() -> (r: Paging)
        ensures
            r.items() == Seq::<WorkItem>::empty(),
            r.skipped() == 0,
    {
        Paging { all: Vec::new(), skip: 0 }
    }

    /// The request for the next page.
    pub fn request(&self, base: &str, token: &str, issue: &str) -> (r: Result<Request, String>)
        ensures
            is_request(r, page_url(base@, issue@, self.skipped()), token@),
    {
        let first = join3(base, "/api/issues/", issue);
        let number = u64_text(self.skip as u64);
        let url = join3(
            first.as_str(),
            "/timeTracking/workItems?fields=id,date,duration(minutes),text&$top=200&$skip=",
            number.as_str(),
        );
        request(url, token)
    }
}

/// What has been read after one more page, and how many work items the next
/// page begins after; none where the page was not full, and so the last one.
pub open spec fn after_page(items: Seq<WorkItem>, skip: nat, page: Seq<WorkItem>) -> (
    Seq<WorkItem>,
    Option<nat>,
) {
    (
        items + page,
        if page.len() < PAGE {
            None
        } else {
            Some(skip + PAGE as nat)
        },
    )
}

/// Goes on after the reply to the request for a page. A page that is not full
/// is the last one. Where a page is refused, the pages before it are the
/// result.
pub fn get_work_items(paging: Paging, reply: Reply<Vec<WorkItem>>) -> (r: PageStep)
    ensures
        match reply {
            Reply::Unreachable(e) => r == PageStep::Done(Err(e)),
            Reply::Refused { .. } => r matches PageStep::Done(Ok(list)) && list@ == paging.items(),
            Reply::Garbled(e) => r == PageStep::Done(Err(e)),
            Reply::Delivered(page) => match after_page(paging.items(), paging.skipped(), page@) {
                (all, None) => r matches PageStep::Done(Ok(list)) && list@ == all,
                (all, Some(skip)) => r matches PageStep::More(next) && next.items() == all
                    && next.skipped() == skip,
            },
        },
{
    proof {
        use_type_invariant(&paging);
    }
    let ghost before = paging.all@;
    let skip: usize = paging.skip;
    let mut all = paging.all;
    match reply {
        Reply::Unreachable(e) => PageStep::Done(Err(e)),
        Reply::Refused { .. } => PageStep::Done(Ok(all)),
        Reply::Garbled(e) => PageStep::Done(Err(e)),
        Reply::Delivered(page) => {
            let got: usize = page.len();
            let ghost new = page@;
            for w in it: page
                invariant
                    it.seq() == new,
                    all@ == before + new.take(it.index() as int),
            {
                all.push(w);
            }
            assert(all@ =~= before + new);
            if got < PAGE {
                PageStep::Done(Ok(all))
            } else {
                let read: usize = all.len();
                assert(skip + PAGE <= read);
                PageStep::More(Paging { all, skip: skip + PAGE })
            }
        },
    }
}

/// What a tracker that holds `list` sends for a page.
pub open spec fn page_of(list: Seq<WorkItem>, skip: nat) -> Seq<WorkItem> {
    if skip >= list.len() {
        seq![]
    } else if skip + 200 >= list.len() {
        list.skip(skip as int)
    } else {
        list.subrange(skip as int, skip as int + 200)
    }
}

/// What reading the pages of `list` from `skip` on comes to where each page is
/// answered, as [`get_work_items`] goes on.
pub open spec fn read_pages(list: Seq<WorkItem>, items: Seq<WorkItem>, skip: nat) -> Seq<WorkItem>
    decreases list.len() - skip,
{
    match after_page(items, skip, page_of(list, skip)) {
        (all, None) => all,
        (all, Some(next)) => read_pages(list, all, next),
    }
}

proof fn lemma_read_pages(list: Seq<WorkItem>, skip: nat)
    requires
        skip <= list.len(),
    ensures
        read_pages(list, list.take(skip as int), skip) == list,
    decreases list.len() - skip,
{
    let page = page_of(list, skip);
    if page.len() < PAGE {
        assert(list.take(skip as int) + page =~= list);
    } else {
        assert(list.take(skip as int) + page =~= list.take(skip + PAGE));
        lemma_read_pages(list, skip + PAGE as nat);
    }
}

/// Reading page by page brings every work item of an issue, however many there
/// are, each once and in order.
pub proof fn law_all_pages_are_read(list: Seq<WorkItem>)
    ensures
        read_pages(list, seq![], 0) == list,
{
    lemma_read_pages(list, 0);
    assert(list.take(0) =~= seq![]);
}

/// Whether `ms` is the start, as if in UTC, of the day that a time entry
/// started on where clocks are `offset` seconds ahead of UTC. An entry whose
/// start cannot be read starts now.
pub open spec fn is_start_day(ms: int, started_at: Seq<char>, now: Moment, offset: i32) -> bool {
    let m = match started_moment(started_at) {
        Some((secs, frac)) => Moment { secs, frac },
        None => now,
    };
    ms == day_at_offset(m, offset) * 86_400_000
}

/// Whether the zone of the machine can give this offset from UTC, in seconds,
/// for a moment when it is asked.
pub closed spec fn zone_is_ahead(secs: i64, offset: i32) -> bool {
    call_ensures(local_offset_at, (secs,), offset)
}

/// Whether the clock of the machine can give this moment when it is read.
pub closed spec fn is_present(now: Moment) -> bool {
    call_ensures(now_utc, (), now)
}

/// The offset is what `chrono::Local` returns for that very second, and the
/// present is what `chrono::Utc::now` returns, and nothing else.
proof fn law_offset_is_the_machines(secs: i64, offset: i32, now: Moment)
    ensures
        zone_is_ahead(secs, offset) == call_ensures(local_offset_at, (secs,), offset),
        is_present(now) == call_ensures(now_utc, (), now),
{
}

/// Whether `ms` is the start, as if in UTC, of the day that the clock of the
/// machine showed when a time entry started; of the present day where the start
/// cannot be read.
pub open spec fn is_local_day(ms: int, started_at: Seq<char>) -> bool {
    match started_moment(started_at) {
        Some((secs, _)) => exists|offset: i32| #[trigger]
            zone_is_ahead(secs, offset) && ms == (secs + offset) / 86_400 * 86_400_000,
        None => exists|now: Moment, offset: i32| #[trigger]
            is_present(now) && #[trigger] zone_is_ahead(now.secs, offset) && ms == (now.secs
                + offset) / 86_400 * 86_400_000,
    }
}

/// The start, as if in UTC, of the local day that a time entry started on, in
/// milliseconds since the Unix epoch. It depends on the time zone of the
/// machine, and where the start cannot be read on the present moment.
pub fn started_to_local_day_ms(started_at: &str) -> (r: i64)
    ensures
        exists|now: Moment, offset: i32|
            now.valid() && is_offset(offset) && #[trigger] is_start_day(
                r as int,
                started_at@,
                now,
                offset,
            ),
        is_local_day(r as int, started_at@),
{
    let m: Moment = match read_start(started_at) {
        Some(read) => read,
        None => now_utc(),
    };
    let offset: i32 = local_offset_at(m.secs);
    let r: i64 = day_start_ms(m, offset);
    assert(is_start_day(r as int, started_at@, m, offset));
    assert(zone_is_ahead(m.secs, offset));
    assert(started_moment(started_at@) is None ==> is_present(m));
    r
}

/// The local day of a start is a whole day, and the start lies in it.
pub proof fn law_day_holds_the_start(ms: int, started_at: Seq<char>, now: Moment, offset: i32)
    requires
        is_start_day(ms, started_at, now, offset),
    ensures
        ms % 86_400_000 == 0,
        started_moment(started_at) matches Some(m) ==> ms <= (m.0 + offset) * 1000 < ms
            + 86_400_000,
{
}

/// The day of a work item is the one that the clock showed when the entry
/// started: counted at the offset of the machine's zone at that very second, the
/// start lies in the day that begins at `ms`. The day of an entry whose start
/// cannot be read is the one that the clock shows now.
proof fn law_item_is_on_the_day_of_its_start(ms: int, started_at: Seq<char>)
    requires
        is_local_day(ms, started_at),
    ensures
        ms % 86_400_000 == 0,
        started_moment(started_at) matches Some(m) ==> exists|offset: i32| #[trigger]
            call_ensures(local_offset_at, (m.0,), offset) && ms <= (m.0 + offset) * 1000 < ms
                + 86_400_000,
        started_moment(started_at) is None ==> exists|now: Moment, offset: i32| #[trigger]
            call_ensures(now_utc, (), now) && #[trigger] call_ensures(
                local_offset_at,
                (now.secs,),
                offset,
            ) && ms <= (now.secs + offset) * 1000 < ms + 86_400_000,
{
    match started_moment(started_at) {
        Some((secs, _)) => {
            let offset = choose|offset: i32| #[trigger]
                zone_is_ahead(secs, offset) && ms == (secs + offset) / 86_400 * 86_400_000;
            assert(call_ensures(local_offset_at, (secs,), offset));
        },
        None => {
            let (now, offset) = choose|now: Moment, offset: i32| #[trigger]
                is_present(now) && #[trigger] zone_is_ahead(now.secs, offset) && ms == (now.secs
                    + offset) / 86_400 * 86_400_000;
            assert(call_ensures(now_utc, (), now));
            assert(call_ensures(local_offset_at, (now.secs,), offset));
        },
    }
}

/// What begins a marker.
pub const MARKER_START: &'static str = "[synclock:";

/// The marker in the text of a work item that tells which time entry it is of.
pub open spec fn marker_text(dedup_marker: Seq<char>) -> Seq<char> {
    MARKER_START@ + dedup_marker + "]"@
}

/// The text of a work item: the comment, where there is one, and the marker.
pub open spec fn item_text(comment: Seq<char>, dedup_marker: Seq<char>) -> Seq<char> {
    if comment.len() == 0 {
        marker_text(dedup_marker)
    } else {
        comment + "\n\n"@ + marker_text(dedup_marker)
    }
}

fn write_marker(dedup_marker: &str) -> (r: String)
    ensures
        r@ == marker_text(dedup_marker@),
{
    join3(MARKER_START, dedup_marker, "]")
}

/// A work item to be added. Its date is in milliseconds since the Unix epoch.
pub struct WorkItemRequest {
    pub date: i64,
    pub minutes: i64,
    pub text: String,
    pub type_id: Option<String>,
}

/// Whether `r` is the work item for these minutes, comment, marker and type.
/// An empty type is no type.
pub open spec fn is_item_for(
    r: WorkItemRequest,
    minutes: int,
    comment: Seq<char>,
    dedup_marker: Seq<char>,
    type_id: Option<Seq<char>>,
) -> bool {
    &&& r.minutes == minutes
    &&& r.text@ == item_text(comment, dedup_marker)
    &&& opt_text(r.type_id) == (match type_id {
        Some(id) => if id.len() == 0 {
            None
        } else {
            Some(id)
        },
        None => None,
    })
}

/// The work item to be added on a day.
pub fn work_item_on(
    date: i64,
    minutes: i64,
    comment: &str,
    dedup_marker: &str,
    type_id: &Option<String>,
) -> (r: WorkItemRequest)
    ensures
        r.date == date,
        is_item_for(r, minutes as int, comment@, dedup_marker@, opt_text(*type_id)),
{
    let marker = write_marker(dedup_marker);
    let text = if comment.is_empty() {
        marker
    } else {
        join3(comment, "\n\n", marker.as_str())
    };
    let kept = match type_id {
        Some(id) => if id.as_str().is_empty() {
            None
        } else {
            Some(id.clone())
        },
        None => None,
    };
    WorkItemRequest { date, minutes, text, type_id: kept }
}

/// The work item to be added for a time entry.
pub fn add_work_item(
    minutes: i64,
    started_at: &str,
    comment: &str,
    dedup_marker: &str,
    type_id: &Option<String>,
) -> (r: WorkItemRequest)
    ensures
        exists|now: Moment, offset: i32|
            now.valid() && is_offset(offset) && #[trigger] is_start_day(
                r.date as int,
                started_at@,
                now,
                offset,
            ),
        is_local_day(r.date as int, started_at@),
        is_item_for(r, minutes as int, comment@, dedup_marker@, opt_text(*type_id)),
{
    let date: i64 = started_to_local_day_ms(started_at);
    work_item_on(date, minutes, comment, dedup_marker, type_id)
}

/// The request that adds a work item to an issue.
pub fn add_request(base: &str, token: &str, issue: &str) -> (r: Result<Request, String>)
    ensures
        is_request(
            r,
            base@ + "/api/issues/"@ + issue@ + "/timeTracking/workItems?fields=id"@,
            token@,
        ),
{
    request(
        join4(base, "/api/issues/", issue, "/timeTracking/workItems?fields=id"),
        token,
    )
}

/// The texts of work items.
pub open spec fn item_texts(items: Seq<WorkItem>) -> Seq<Seq<char>> {
    Seq::new(items.len(), |i: int| items[i].text@)
}

/// Whether one of the texts has the marker.
pub open spec fn is_marked(item_texts: Seq<Seq<char>>, dedup_marker: Seq<char>) -> bool {
    exists|i: int|
        0 <= i < item_texts.len() && has_piece(#[trigger] item_texts[i], marker_text(dedup_marker))
}

/// Whether one of the work items has the marker.
pub open spec fn has_marker(items: Seq<WorkItem>, dedup_marker: Seq<char>) -> bool {
    is_marked(item_texts(items), dedup_marker)
}

/// Whether a time entry is among the work items of an issue: one of them has
/// its marker.
pub fn is_already_synced(items: &[WorkItem], dedup_marker: &str) -> (r: bool)
    ensures
        r == has_marker(items@, dedup_marker@),
{
    let needle = write_marker(dedup_marker);
    let mut i: usize = 0;
    while i < items.len()
        invariant
            i <= items@.len(),
            needle@ == marker_text(dedup_marker@),
            forall|j: int|
                0 <= j < i ==> !has_piece((#[trigger] items@[j]).text@, marker_text(dedup_marker@)),
        decreases items.len() - i,
    {
        if contains_text(items[i].text.as_str(), needle.as_str()) {
            assert(item_texts(items@)[i as int] == items@[i as int].text@);
            return true;
        }
        i = i + 1;
    }
    false
}

/// A work item is recognised by its marker whatever text stands around it, so
/// that the rest of the text can be edited.
pub proof fn law_marker_is_found(items: Seq<WorkItem>, i: int, before: Seq<char>, dedup_marker: Seq<
    char,
>, after: Seq<char>)
    requires
        0 <= i < items.len(),
        items[i].text@ == before + marker_text(dedup_marker) + after,
    ensures
        has_marker(items, dedup_marker),
{
    let text = items[i].text@;
    let piece = marker_text(dedup_marker);
    let at = before.len() as int;
    assert(text.subrange(at, at + piece.len()) =~= piece);
    assert(stands_at(text, piece, at));
    assert(item_texts(items)[i] == text);
}

/// A work item that was added for a time entry is recognised again.
pub proof fn law_added_item_is_recognised(
    items: Seq<WorkItem>,
    i: int,
    comment: Seq<char>,
    dedup_marker: Seq<char>,
)
    requires
        0 <= i < items.len(),
        items[i].text@ == item_text(comment, dedup_marker),
    ensures
        has_marker(items, dedup_marker),
{
    let before = if comment.len() == 0 {
        seq![]
    } else {
        comment + "\n\n"@
    };
    assert(items[i].text@ =~= before + marker_text(dedup_marker) + seq![]);
    law_marker_is_found(items, i, before, dedup_marker, seq![]);
}

proof fn lemma_marker_start()
    ensures
        MARKER_START@.len() == 10,
        MARKER_START@[0] == '[',
        forall|k: int| 0 < k < 10 ==> #[trigger] MARKER_START@[k] != '[',
        forall|k: int|
            0 <= k < 10 ==> #[trigger] MARKER_START@[k] != ']' && MARKER_START@[k] != '\n',
        "]"@ == seq![']'],
        "\n\n"@ == seq!['\n', '\n'],
{
    reveal_strlit("[synclock:");
    reveal_strlit("]");
    reveal_strlit("\n\n");
    assert("]"@ =~= seq![']']);
    assert("\n\n"@ =~= seq!['\n', '\n']);
}

proof fn lemma_one_start(ours: Seq<char>, at: int)
    requires
        !has_piece(ours, MARKER_START@),
        stands_at(marker_text(ours), MARKER_START@, at),
    ensures
        at == 0,
{
    lemma_marker_start();
    let start = MARKER_START@;
    let mark = marker_text(ours);
    let there = mark.subrange(at, at + 10);
    assert(mark[at] == there[0]);
    if 0 < at < 10 {
        assert(mark[at] == start[at]);
    } else if at >= 10 {
        let p = at - 10;
        if at <= ours.len() {
            assert(ours.subrange(p, p + 10) =~= there);
            assert(stands_at(ours, start, p));
        } else {
            let k = mark.len() - 1 - at;
            assert(there[k] == mark[mark.len() - 1]);
            assert(start[k] == ']');
        }
    }
}

proof fn lemma_start_is_ours(comment: Seq<char>, ours: Seq<char>, at: int)
    requires
        !has_piece(comment, MARKER_START@),
        !has_piece(ours, MARKER_START@),
        stands_at(item_text(comment, ours), MARKER_START@, at),
    ensures
        at == item_text(comment, ours).len() - marker_text(ours).len(),
{
    lemma_marker_start();
    let start = MARKER_START@;
    let text = item_text(comment, ours);
    let mark = marker_text(ours);
    let base = text.len() - mark.len();
    let there = text.subrange(at, at + 10);
    assert(text[at] == there[0]);
    if at >= base {
        assert(mark.subrange(at - base, at - base + 10) =~= there);
        assert(stands_at(mark, start, at - base));
        lemma_one_start(ours, at - base);
    } else if at + 10 <= comment.len() {
        assert(comment.subrange(at, at + 10) =~= there);
        assert(stands_at(comment, start, at));
    } else if at < comment.len() {
        let k = comment.len() - at;
        assert(there[k] == text[comment.len() as int]);
        assert(start[k] == '\n');
    }
}

/// A work item that was added for one time entry is not taken for that of
/// another, whatever the comment and the duration, as long as neither the
/// comment nor the marker itself holds the beginning of a marker, nor the
/// marker its end.
pub proof fn law_marker_is_of_one_entry(comment: Seq<char>, ours: Seq<char>, other: Seq<char>)
    requires
        !has_piece(comment, MARKER_START@),
        !has_piece(ours, MARKER_START@),
        !ours.contains(']'),
        has_piece(item_text(comment, ours), marker_text(other)),
    ensures
        ours == other,
{
    lemma_marker_start();
    let start = MARKER_START@;
    let text = item_text(comment, ours);
    let piece = marker_text(other);
    let mark = marker_text(ours);
    let at = choose|at: int| #[trigger] stands_at(text, piece, at);
    let there = text.subrange(at, at + piece.len());
    assert(text.subrange(at, at + 10) =~= there.subrange(0, 10));
    assert(piece.subrange(0, 10) =~= start);
    assert(stands_at(text, start, at));
    lemma_start_is_ours(comment, ours, at);
    assert(text.subrange(at, text.len() as int) =~= mark);
    assert(there =~= mark.subrange(0, piece.len() as int));
    let last = piece.len() - 1;
    assert(piece[last] == ']');
    assert(mark[last] == there[last]);
    if last < mark.len() - 1 {
        assert(mark[last] == ours[last - 10]);
    }
    assert(piece =~= mark);
    assert(ours =~= mark.subrange(10, mark.len() - 1));
    assert(other =~= piece.subrange(10, piece.len() - 1));
}

/// The text of a work item is the comment, where there is one, an empty line and
/// the marker in brackets, and ends with it.
pub proof fn law_item_text_ends_with_the_marker(comment: Seq<char>, dedup_marker: Seq<char>)
    ensures
        comment.len() == 0 ==> item_text(comment, dedup_marker) == "[synclock:"@ + dedup_marker
            + "]"@,
        comment.len() > 0 ==> item_text(comment, dedup_marker) == comment + "\n\n"@ + ("[synclock:"@
            + dedup_marker + "]"@),
{
}

/// A work item has the minutes of its entry, the comment and the marker as its
/// text, and the type exactly where one is mapped.
pub proof fn law_item_is_of_its_entry(
    r: WorkItemRequest,
    minutes: int,
    comment: Seq<char>,
    dedup_marker: Seq<char>,
    type_id: Option<Seq<char>>,
)
    requires
        is_item_for(r, minutes, comment, dedup_marker, type_id),
    ensures
        r.minutes == minutes,
        r.text@ == item_text(comment, dedup_marker),
        type_id matches Some(id) ==> (id.len() > 0 ==> (r.type_id matches Some(x) && x@ == id)),
        type_id matches Some(id) ==> (id.len() == 0 ==> r.type_id is None),
        type_id is None ==> r.type_id is None,
{
}

/// A time entry is among work items exactly where the text of one of them, at
/// whatever position, holds its marker in brackets.
pub proof fn law_marker_in_any_item_counts(items: Seq<WorkItem>, dedup_marker: Seq<char>)
    ensures
        has_marker(items, dedup_marker) == exists|i: int|
            0 <= i < items.len() && has_piece(
                (#[trigger] items[i]).text@,
                "[synclock:"@ + dedup_marker + "]"@,
            ),
{
    let held = item_texts(items);
    let piece = "[synclock:"@ + dedup_marker + "]"@;
    if has_marker(items, dedup_marker) {
        let i = choose|i: int| 0 <= i < held.len() && has_piece(#[trigger] held[i], piece);
        assert(has_piece(items[i].text@, piece));
    }
    if exists|i: int| 0 <= i < items.len() && has_piece((#[trigger] items[i]).text@, piece) {
        let i = choose|i: int| 0 <= i < items.len() && has_piece((#[trigger] items[i]).text@, piece);
        assert(has_piece(held[i], piece));
    }
}

/// The settings give a connection exactly where both the address and the token
/// are there. The token is taken as it is, the address without the slashes at
/// its end.
pub proof fn law_connection_needs_address_and_token(cfg: AppConfig)
    ensures
        cfg.youtrack_base_url@.len() > 0 && cfg.youtrack_token@.len() > 0 ==> (connection(cfg)
            matches Ok(c) && c.1 == cfg.youtrack_token@ && c.0.len() <= cfg.youtrack_base_url@.len()
            && c.0 == cfg.youtrack_base_url@.take(c.0.len() as int) && (c.0.len() > 0 ==> c.0.last()
            != '/') && forall|i: int|
            c.0.len() <= i < cfg.youtrack_base_url@.len() ==> #[trigger] cfg.youtrack_base_url@[i]
                == '/'),
        cfg.youtrack_base_url@.len() == 0 || cfg.youtrack_token@.len() == 0 ==> connection(cfg) is Err,
{
    law_trailing_run_is_stripped(cfg.youtrack_base_url@, '/');
}

/// Of the issues that a search finds, the first one with an id is taken, and
/// there is none exactly where all are empty.
pub proof fn law_first_issue_with_an_id_is_taken(ids: Seq<Seq<char>>)
    ensures
        match first_filled(ids) {
            Some(id) => exists|i: int|
                0 <= i < ids.len() && #[trigger] ids[i] == id && id.len() > 0 && forall|j: int|
                    0 <= j < i ==> (#[trigger] ids[j]).len() == 0,
            None => forall|i: int| 0 <= i < ids.len() ==> (#[trigger] ids[i]).len() == 0,
        },
    decreases ids.len(),
{
    if ids.len() > 0 {
        if ids.first().len() > 0 {
            assert(ids[0] == ids.first());
        } else {
            let less = ids.drop_first();
            law_first_issue_with_an_id_is_taken(less);
            assert(ids[0].len() == 0);
            assert forall|j: int| 1 <= j < ids.len() implies #[trigger] ids[j] == less[j - 1] by {}
            if let Some(id) = first_filled(less) {
                let i = choose|i: int|
                    0 <= i < less.len() && #[trigger] less[i] == id && id.len() > 0 && forall|j: int|
                        0 <= j < i ==> (#[trigger] less[j]).len() == 0;
                assert(ids[i + 1] == id);
                assert forall|j: int| 0 <= j < i + 1 implies (#[trigger] ids[j]).len() == 0 by {
                    if j > 0 {
                        assert(less[j - 1] == ids[j]);
                    }
                }
            }
        }
    }
}

proof fn lemma_types_are_listed(found: Seq<WorkItemType>, more: Seq<WorkItemType>, k: int)
    requires
        0 <= k < with_types(found, more).len(),
    ensures
        found.contains(with_types(found, more)[k]) || more.contains(with_types(found, more)[k]),
        k < found.len() ==> with_types(found, more)[k] == found[k],
        found.len() <= with_types(found, more).len(),
    decreases more.len(),
{
    if more.len() > 0 {
        let less = more.drop_last();
        let before = with_types(found, less);
        assert(found.len() <= before.len()) by {
            if before.len() > 0 {
                lemma_types_are_listed(found, less, 0);
            } else {
                lemma_types_grow(found, less);
            }
        }
        if k < before.len() {
            lemma_types_are_listed(found, less, k);
            if less.contains(before[k]) {
                let i = choose|i: int| 0 <= i < less.len() && less[i] == before[k];
                assert(more[i] == before[k]);
            }
        } else {
            assert(more[more.len() - 1] == more.last());
        }
    } else {
        assert(found[k] == with_types(found, more)[k]);
    }
}

proof fn lemma_types_grow(found: Seq<WorkItemType>, more: Seq<WorkItemType>)
    ensures
        found.len() <= with_types(found, more).len(),
    decreases more.len(),
{
    if more.len() > 0 {
        lemma_types_grow(found, more.drop_last());
    }
}

/// Every type of the merged list is one that a project lists, with the name that
/// it has there.
pub proof fn law_types_are_those_of_the_projects(
    projects: Seq<Option<Vec<WorkItemType>>>,
    k: int,
)
    requires
        0 <= k < project_types(projects).len(),
    ensures
        exists|p: int|
            0 <= p < projects.len() && (#[trigger] projects[p] matches Some(types) && types@.contains(
                project_types(projects)[k],
            )),
    decreases projects.len(),
{
    if projects.len() > 0 {
        let less = projects.drop_last();
        let before = project_types(less);
        let t = project_types(projects)[k];
        assert(projects[projects.len() - 1] == projects.last());
        match projects.last() {
            Some(types) => {
                lemma_types_are_listed(before, types@, k);
                if before.contains(t) {
                    let j = choose|j: int| 0 <= j < before.len() && before[j] == t;
                    law_types_are_those_of_the_projects(less, j);
                    let p = choose|p: int|
                        0 <= p < less.len() && (#[trigger] less[p] matches Some(types)
                            && types@.contains(t));
                    assert(projects[p] == less[p]);
                }
            },
            None => {
                law_types_are_those_of_the_projects(less, k);
                let p = choose|p: int|
                    0 <= p < less.len() && (#[trigger] less[p] matches Some(types)
                        && types@.contains(t));
                assert(projects[p] == less[p]);
            },
        }
    }
}

/// The types that are shown ascend by their names in lower case.
pub proof fn law_types_ascend_by_name(types: Seq<WorkItemType>, list: Seq<WorkItemType>, i: int, j: int)
    requires
        is_sorted_by(types, sort_names(types), list),
        0 <= i < j < list.len(),
    ensures
        text_le(lowercase(list[i].name@), lowercase(list[j].name@)),
        list.to_multiset() == types.to_multiset(),
{
    law_sorting_keeps_the_items(types, sort_names(types), list);
    let from = law_sorted_keys_ascend(types, sort_names(types), list);
    assert(text_le(sort_names(types)[from[i]], sort_names(types)[from[j]]));
}

/// Requests name the issue that they are for: its own address, the search for
/// the text that tells where it was migrated from, and its work items after
/// those that were read. They carry the token and nothing else as credentials.
pub proof fn law_requests_are_for_the_issue(
    base: Seq<char>,
    issue: Seq<char>,
    skip: nat,
    q: Request,
    url: Seq<char>,
    token: Seq<char>,
)
    ensures
        issue_url(base, issue) == base + "/api/issues/"@ + issue + "?fields=idReadable"@,
        search_url(base, issue) == base + "/api/issues?fields=idReadable&$top=5&query="@
            + percent_encoded(encode_utf8("Migrated from JIRA: "@ + issue)),
        page_url(base, issue, skip) == base + "/api/issues/"@ + issue
            + "/timeTracking/workItems?fields=id,date,duration(minutes),text&$top=200&$skip="@
            + nat_text(skip),
        is_request(Ok(q), url, token) ==> q.url@ == url && q.headers.authorization@ == "Bearer "@
            + token && q.headers.content_type@ == "application/json"@,
{
}

/// A search brings an issue exactly where it is answered and one of the issues
/// has an id.
pub proof fn law_search_brings_an_issue_with_an_id(issue_key: Seq<char>, reply: Reply<Vec<String>>)
    ensures
        search_result(issue_key, reply) is Ok == (reply matches Reply::Delivered(ids) && exists|i: int|
            0 <= i < ids@.len() && (#[trigger] ids@[i])@.len() > 0),
{
    if let Reply::Delivered(ids) = reply {
        let words = texts(ids@);
        law_first_issue_with_an_id_is_taken(words);
        assert forall|i: int| 0 <= i < ids@.len() implies words[i] == (#[trigger] ids@[i])@ by {}
        if first_filled(words) is Some {
            let i = choose|i: int|
                0 <= i < words.len() && #[trigger] words[i] == first_filled(words)->0
                    && words[i].len() > 0;
            assert(ids@[i]@.len() > 0);
        }
    }
}

}
