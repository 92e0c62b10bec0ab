use vstd::prelude::*;
use vstd::utf8::encode_utf8;
use crate::config::clone_strings;
use crate::message::{header_value_is_valid, text_body, valid_header_value, HttpResponse};
use crate::security::{sanitize_path, sanitized_path_keeps_leading_slash, spec_sanitize_path};
use crate::text::{chars_of, decimal, string_of, texts, u64_to_string};
use vstd::string::StringExecFns;
use crate::vhost::{join_path, join_path_text, Location, VirtualHost};

verus! {

/// The content type that `mime_guess::from_path(path).first_or_octet_stream()` gives for a path.
pub uninterp spec fn mime_for_path(path: Seq<char>) -> Seq<char>;

/// The first content type mime_guess knows for the path's extension, else
/// `application/octet-stream`. Claims that the result is the named `mime_for_path` of the path.
#[verifier::external_body]
pub(crate) fn guess_mime(path: &str) -> (res: String)
    ensures
        res@ == mime_for_path(path@),
{
    mime_guess::from_path(path).first_or_octet_stream().as_ref().to_owned()
}

/// Serving of files below a document root.
#[derive(Debug)]
pub struct StaticFilesModule {
    cache_control: String,
    index_files: Vec<String>,
    allow_directory_listing: bool,
}

/// A static files module's settings: the `cache-control` value of served files, the index files
/// tried in order for a directory, and whether a directory without one may be listed.
pub struct StaticFilesView {
    pub cache_control: Seq<char>,
    pub index_files: Seq<Seq<char>>,
    pub allow_directory_listing: bool,
}

impl View for StaticFilesModule {
    type V = StaticFilesView;

    closed spec fn view(&self) -> StaticFilesView {
        StaticFilesView {
            cache_control: self.cache_control@,
            index_files: texts(self.index_files@),
            allow_directory_listing: self.allow_directory_listing,
        }
    }
}

/// Where the resolution of a request path to a file stands: which answer it waits for.
#[derive(Clone, Copy, Debug, PartialEq, Eq, Structural)]
pub enum ResolveStage {
    /// Whether the base path is a directory.
    BaseIsDir,
    /// Whether the `k`-th index file exists in the base directory.
    IndexExists(usize),
    /// Whether the chosen path is a directory.
    ChosenIsDir,
    /// Whether the chosen path exists.
    ChosenExists,
    /// Nothing: the outcome is known.
    Finished,
}

/// The state of a resolution: its stage, the base path of the request, and the path chosen so far.
pub struct ResolveState {
    pub stage: ResolveStage,
    pub base: String,
    pub path: String,
}

/// What the resolution asks of the file system next, or its outcome.
pub enum FileQuery {
    /// Is this path a directory?
    IsDir(String),
    /// Does this path exist?
    Exists(String),
    /// The file to serve, or none.
    Done(Option<String>),
}

/// A query as text.
pub enum QueryView {
    IsDir(Seq<char>),
    Exists(Seq<char>),
    Done(Option<Seq<char>>),
}

/// The text of a query.
pub open spec fn query_view(q: FileQuery) -> QueryView {
    match q {
        FileQuery::IsDir(p) => QueryView::IsDir(p@),
        FileQuery::Exists(p) => QueryView::Exists(p@),
        FileQuery::Done(o) => QueryView::Done(match o { Some(p) => Some(p@), None => None }),
    }
}

/// The base path of a request: the document root joined with the sanitized path without its
/// leading slash.
pub open spec fn base_file_path(root: Seq<char>, req_path: Seq<char>) -> Seq<char> {
    join_path(root, spec_sanitize_path(req_path).skip(1))
}

/// The next stage, chosen path and query of a resolution over `base`, given the answer to the
/// query it waited for.
pub open spec fn resolve_next(v: StaticFilesView, stage: ResolveStage, base: Seq<char>, path: Seq<char>, answer: bool)
    -> (ResolveStage, Seq<char>, QueryView)
{
    match stage {
        ResolveStage::BaseIsDir => if answer {
            if v.index_files.len() > 0 {
                (ResolveStage::IndexExists(0), base, QueryView::Exists(join_path(base, v.index_files[0])))
            } else {
                (ResolveStage::ChosenIsDir, base, QueryView::IsDir(base))
            }
        } else {
            (ResolveStage::ChosenExists, base, QueryView::Exists(base))
        },
        ResolveStage::IndexExists(k) => if answer && k < v.index_files.len() {
            let chosen = join_path(base, v.index_files[k as int]);
            (ResolveStage::ChosenIsDir, chosen, QueryView::IsDir(chosen))
        } else if k + 1 < v.index_files.len() {
            (ResolveStage::IndexExists((k + 1) as usize), base, QueryView::Exists(join_path(base, v.index_files[k + 1])))
        } else {
            (ResolveStage::ChosenIsDir, base, QueryView::IsDir(base))
        },
        ResolveStage::ChosenIsDir => if answer && !v.allow_directory_listing {
            (ResolveStage::Finished, path, QueryView::Done(None))
        } else {
            (ResolveStage::ChosenExists, path, QueryView::Exists(path))
        },
        ResolveStage::ChosenExists => (ResolveStage::Finished, path, QueryView::Done(if answer { Some(path) } else { None })),
        ResolveStage::Finished => (ResolveStage::Finished, path, QueryView::Done(None)),
    }
}

/// The file the first existing index file among those from the `k`-th on names, if any.
pub open spec fn first_index_from(v: StaticFilesView, base: Seq<char>, present: spec_fn(Seq<char>) -> bool, k: int) -> Option<Seq<char>>
    decreases v.index_files.len() - k,
{
    if k < 0 || k >= v.index_files.len() {
        None
    } else if present(join_path(base, v.index_files[k])) {
        Some(join_path(base, v.index_files[k]))
    } else {
        first_index_from(v, base, present, k + 1)
    }
}

/// The outcome once a path is chosen: none for a directory that may not be listed (only asked
/// when the base was a directory), else the path when it exists.
pub open spec fn chosen_outcome(v: StaticFilesView, chosen: Seq<char>, was_dir: bool, is_dir: spec_fn(Seq<char>) -> bool, present: spec_fn(Seq<char>) -> bool) -> Option<Seq<char>> {
    if was_dir && is_dir(chosen) && !v.allow_directory_listing {
        None
    } else if present(chosen) {
        Some(chosen)
    } else {
        None
    }
}

/// The file a request's base path resolves to on a file system described by `is_dir` and
/// `exists`: a directory's first existing index file (or the directory itself, when it may be
/// listed), else the path itself, when it exists.
pub open spec fn spec_resolve(v: StaticFilesView, base: Seq<char>, is_dir: spec_fn(Seq<char>) -> bool, present: spec_fn(Seq<char>) -> bool) -> Option<Seq<char>> {
    if is_dir(base) {
        let chosen = match first_index_from(v, base, present, 0) {
            Some(p) => p,
            None => base,
        };
        chosen_outcome(v, chosen, true, is_dir, present)
    } else {
        chosen_outcome(v, base, false, is_dir, present)
    }
}

/// The outcome of running the resolution from a stage and its pending query, answering every
/// question from `is_dir` and `exists`, within `fuel` steps; `None` when the steps run out.
pub open spec fn drive_resolution(v: StaticFilesView, stage: ResolveStage, base: Seq<char>, path: Seq<char>, query: QueryView,
    is_dir: spec_fn(Seq<char>) -> bool, present: spec_fn(Seq<char>) -> bool, fuel: nat) -> Option<Option<Seq<char>>>
    decreases fuel,
{
    if fuel == 0 {
        None
    } else {
        match query {
            QueryView::Done(o) => Some(o),
            QueryView::IsDir(p) => {
                let (s, pa, q) = resolve_next(v, stage, base, path, is_dir(p));
                drive_resolution(v, s, base, pa, q, is_dir, present, (fuel - 1) as nat)
            },
            QueryView::Exists(p) => {
                let (s, pa, q) = resolve_next(v, stage, base, path, present(p));
                drive_resolution(v, s, base, pa, q, is_dir, present, (fuel - 1) as nat)
            },
        }
    }
}

proof fn lemma_drive_chosen(v: StaticFilesView, base: Seq<char>, chosen: Seq<char>, is_dir: spec_fn(Seq<char>) -> bool, present: spec_fn(Seq<char>) -> bool, fuel: nat)
    requires
        fuel >= 3,
    ensures
        drive_resolution(v, ResolveStage::ChosenIsDir, base, chosen, QueryView::IsDir(chosen), is_dir, present, fuel)
            == Some(chosen_outcome(v, chosen, true, is_dir, present)),
{
    let f1 = (fuel - 1) as nat;
    let f2 = (fuel - 2) as nat;
    if is_dir(chosen) && !v.allow_directory_listing {
        assert(resolve_next(v, ResolveStage::ChosenIsDir, base, chosen, true)
            == (ResolveStage::Finished, chosen, QueryView::Done(None)));
        assert(drive_resolution(v, ResolveStage::Finished, base, chosen, QueryView::Done(None), is_dir, present, f1) == Some(None::<Seq<char>>));
    } else {
        assert(resolve_next(v, ResolveStage::ChosenIsDir, base, chosen, is_dir(chosen))
            == (ResolveStage::ChosenExists, chosen, QueryView::Exists(chosen)));
        let o = if present(chosen) { Some(chosen) } else { None };
        assert(resolve_next(v, ResolveStage::ChosenExists, base, chosen, present(chosen))
            == (ResolveStage::Finished, chosen, QueryView::Done(o)));
        assert(drive_resolution(v, ResolveStage::Finished, base, chosen, QueryView::Done(o), is_dir, present, f2) == Some(o));
        assert(drive_resolution(v, ResolveStage::ChosenExists, base, chosen, QueryView::Exists(chosen), is_dir, present, f1) == Some(o));
    }
}

proof fn lemma_drive_probe(v: StaticFilesView, base: Seq<char>, is_dir: spec_fn(Seq<char>) -> bool, present: spec_fn(Seq<char>) -> bool, k: int, fuel: nat)
    requires
        0 <= k < v.index_files.len(),
        v.index_files.len() < usize::MAX,
        fuel >= v.index_files.len() - k + 3,
    ensures
        drive_resolution(v, ResolveStage::IndexExists(k as usize), base, base, QueryView::Exists(join_path(base, v.index_files[k])), is_dir, present, fuel)
            == Some(chosen_outcome(v, match first_index_from(v, base, present, k) { Some(p) => p, None => base }, true, is_dir, present)),
    decreases v.index_files.len() - k,
{
    let f1 = (fuel - 1) as nat;
    if present(join_path(base, v.index_files[k])) {
        lemma_drive_chosen(v, base, join_path(base, v.index_files[k]), is_dir, present, f1);
    } else if k + 1 < v.index_files.len() {
        lemma_drive_probe(v, base, is_dir, present, k + 1, f1);
    } else {
        assert(first_index_from(v, base, present, k + 1) is None);
        lemma_drive_chosen(v, base, base, is_dir, present, f1);
    }
}

/// Driving the resolution steps with a file system's answers ends, within as many steps as there
/// are index files plus four, at the file `spec_resolve` names: the steps decide as one pass over
/// the file system would.
pub proof fn resolution_finds_the_file(v: StaticFilesView, base: Seq<char>, is_dir: spec_fn(Seq<char>) -> bool, present: spec_fn(Seq<char>) -> bool)
    requires
        v.index_files.len() < usize::MAX,
    ensures
        drive_resolution(v, ResolveStage::BaseIsDir, base, base, QueryView::IsDir(base), is_dir, present, (v.index_files.len() + 4) as nat)
            == Some(spec_resolve(v, base, is_dir, present)),
{
    let fuel = (v.index_files.len() + 4) as nat;
    let f1 = (fuel - 1) as nat;
    if is_dir(base) {
        if v.index_files.len() > 0 {
            lemma_drive_probe(v, base, is_dir, present, 0, f1);
        } else {
            assert(first_index_from(v, base, present, 0) is None);
            lemma_drive_chosen(v, base, base, is_dir, present, f1);
        }
    } else {
        let f2 = (fuel - 2) as nat;
        assert(drive_resolution(v, ResolveStage::ChosenExists, base, base, QueryView::Exists(base), is_dir, present, f1)
            == drive_resolution(v, ResolveStage::Finished, base, base, QueryView::Done(if present(base) { Some(base) } else { None }), is_dir, present, f2));
    }
}

/// The settings that configuration may give (absent values as `None`).
pub struct StaticFilesSettings {
    pub cache_control: Option<String>,
    pub allow_directory_listing: Option<bool>,
    pub index_files: Option<Vec<String>>,
}

impl StaticFilesModule {
    /// `public, max-age=3600`, index files `index.html` then `index.htm`, no listing.
    pub fn new() -> (res: StaticFilesModule)
        ensures
            res@ == (StaticFilesView {
                cache_control: "public, max-age=3600"@,
                index_files: seq!["index.html"@, "index.htm"@],
                allow_directory_listing: false,
            }),
    {
        let mut index_files: Vec<String> = Vec::new();
        index_files.push("index.html".to_owned());
        index_files.push("index.htm".to_owned());
        let res = StaticFilesModule {
            cache_control: "public, max-age=3600".to_owned(),
            index_files,
            allow_directory_listing: false,
        };
        assert(texts(res.index_files@) =~= seq!["index.html"@, "index.htm"@]);
        res
    }

    /// The module with `cache_control` as the `cache-control` value.
    pub fn with_cache_control(self, cache_control: &str) -> (res: StaticFilesModule)
        ensures
            res@ == (StaticFilesView { cache_control: cache_control@, ..self@ }),
    {
        let mut m = self;
        m.cache_control = cache_control.to_owned();
        m
    }

    /// The module with `index_files` as the index files.
    pub fn with_index_files(self, index_files: Vec<String>) -> (res: StaticFilesModule)
        ensures
            res@ == (StaticFilesView { index_files: texts(index_files@), ..self@ }),
    {
        let mut m = self;
        m.index_files = index_files;
        m
    }

    /// The module with directory listing allowed or not.
    pub fn with_directory_listing(self, allow_listing: bool) -> (res: StaticFilesModule)
        ensures
            res@ == (StaticFilesView { allow_directory_listing: allow_listing, ..self@ }),
    {
        let mut m = self;
        m.allow_directory_listing = allow_listing;
        m
    }

    /// The module's name.
    pub fn name(&self) -> (res: &'static str)
        ensures
            res@ == "static_files"@,
    {
        "static_files"
    }

    /// Applies the configured settings; a list of index files replaces the current one.
    pub fn init(&mut self, settings: &StaticFilesSettings)
        ensures
            final(self)@.cache_control == match settings.cache_control {
                Some(c) => c@,
                None => old(self)@.cache_control,
            },
            final(self)@.allow_directory_listing == match settings.allow_directory_listing {
                Some(b) => b,
                None => old(self)@.allow_directory_listing,
            },
            final(self)@.index_files == match settings.index_files {
                Some(f) => texts(f@),
                None => old(self)@.index_files,
            },
    {
        if let Some(c) = &settings.cache_control {
            self.cache_control = c.clone();
        }
        if let Some(b) = settings.allow_directory_listing {
            self.allow_directory_listing = b;
        }
        if let Some(f) = &settings.index_files {
            let files = clone_strings(f);
            self.index_files = files;
            assert(texts(self.index_files@) =~= texts(f@));
        }
    }

    /// The document root for a request: the location's root where it has one, else the host's.
    pub fn get_document_root<'a>(&self, vhost: &'a VirtualHost, location: Option<&'a Location>, path: &str) -> (res: &'a String)
        ensures
            *res == match location {
                Some(l) => match l.root {
                    Some(r) => r,
                    None => vhost.document_root,
                },
                None => vhost.document_root,
            },
    {
        if let Some(loc) = location {
            if let Some(root) = &loc.root {
                return root;
            }
        }
        &vhost.document_root
    }

    /// Starts resolving a request path (which starts with `/`) to a file: the base path below the
    /// document root, and the question whether it is a directory.
    pub fn resolve_start(&self, req_path: &str, vhost: &VirtualHost, location: Option<&Location>) -> (res: (ResolveState, FileQuery))
        requires
            req_path@.len() > 0,
            req_path@[0] == '/',
        ensures
            ({
                let root = match location {
                    Some(l) => match l.root {
                        Some(r) => r@,
                        None => vhost.document_root@,
                    },
                    None => vhost.document_root@,
                };
                let base = base_file_path(root, req_path@);
                &&& res.0.stage == ResolveStage::BaseIsDir
                &&& res.0.base@ == base
                &&& res.0.path@ == base
                &&& query_view(res.1) == QueryView::IsDir(base)
            }),
    {
        let sanitized = sanitize_path(req_path);
        proof { sanitized_path_keeps_leading_slash(req_path@); }
        let chars = chars_of(sanitized.as_str());
        let mut rest: Vec<char> = Vec::new();
        for i in 1..chars.len()
            invariant
                1 <= chars@.len(),
                rest@ == chars@.subrange(1, i as int),
        {
            rest.push(chars[i]);
            assert(rest@ == chars@.subrange(1, i + 1));
        }
        assert(rest@ == sanitized@.skip(1));
        let root = self.get_document_root(vhost, location, req_path);
        let base = join_path_text(root.as_str(), string_of(&rest).as_str());
        let state = ResolveState { stage: ResolveStage::BaseIsDir, base: base.clone(), path: base.clone() };
        (state, FileQuery::IsDir(base))
    }

    /// Takes the answer to the last query and gives the next state and query
    /// (see `resolve_next`): a directory is served through its first existing index file, or
    /// listed when listing is allowed; a path that does not exist gives no file.
    pub fn resolve_step(&self, state: ResolveState, answer: bool) -> (res: (ResolveState, FileQuery))
        ensures
            ({
                let (stage, path, query) = resolve_next(self@, state.stage, state.base@, state.path@, answer);
                &&& res.0.stage == stage
                &&& res.0.base@ == state.base@
                &&& res.0.path@ == path
                &&& query_view(res.1) == query
            }),
    {
        let ResolveState { stage, base, path } = state;
        match stage {
            ResolveStage::BaseIsDir => {
                if answer {
                    if self.index_files.len() > 0 {
                        let q = join_path_text(base.as_str(), self.index_files[0].as_str());
                        let p = base.clone();
                        (ResolveState { stage: ResolveStage::IndexExists(0), base, path: p }, FileQuery::Exists(q))
                    } else {
                        let q = base.clone();
                        let p = base.clone();
                        (ResolveState { stage: ResolveStage::ChosenIsDir, base, path: p }, FileQuery::IsDir(q))
                    }
                } else {
                    let q = base.clone();
                    let p = base.clone();
                    (ResolveState { stage: ResolveStage::ChosenExists, base, path: p }, FileQuery::Exists(q))
                }
            },
            ResolveStage::IndexExists(k) => {
                if answer && k < self.index_files.len() {
                    let chosen = join_path_text(base.as_str(), self.index_files[k].as_str());
                    let q = chosen.clone();
                    (ResolveState { stage: ResolveStage::ChosenIsDir, base, path: chosen }, FileQuery::IsDir(q))
                } else if k < self.index_files.len() && k + 1 < self.index_files.len() {
                    let q = join_path_text(base.as_str(), self.index_files[k + 1].as_str());
                    let p = base.clone();
                    (ResolveState { stage: ResolveStage::IndexExists(k + 1), base, path: p }, FileQuery::Exists(q))
                } else {
                    let q = base.clone();
                    let p = base.clone();
                    (ResolveState { stage: ResolveStage::ChosenIsDir, base, path: p }, FileQuery::IsDir(q))
                }
            },
            ResolveStage::ChosenIsDir => {
                if answer && !self.allow_directory_listing {
                    (ResolveState { stage: ResolveStage::Finished, base, path }, FileQuery::Done(None))
                } else {
                    let q = path.clone();
                    (ResolveState { stage: ResolveStage::ChosenExists, base, path }, FileQuery::Exists(q))
                }
            },
            ResolveStage::ChosenExists => {
                let outcome = if answer { Some(path.clone()) } else { None };
                (ResolveState { stage: ResolveStage::Finished, base, path }, FileQuery::Done(outcome))
            },
            ResolveStage::Finished => {
                (ResolveState { stage: ResolveStage::Finished, base, path }, FileQuery::Done(None))
            },
        }
    }

    /// The response for a file's contents: its guessed content type and the module's
    /// `cache-control`; `None` when either value cannot stand in a header.
    pub fn file_response(&self, file_path: &str, contents: Vec<u8>) -> (res: Option<HttpResponse>)
        ensures
            match res {
                Some(r) => valid_header_value(mime_for_path(file_path@)) && valid_header_value(self@.cache_control)
                    && r.status == 200 && r.body@ == contents@ && r.headers@.len() == 2
                    && r.headers@[0].0@ == "content-type"@ && r.headers@[0].1@ == mime_for_path(file_path@)
                    && r.headers@[1].0@ == "cache-control"@ && r.headers@[1].1@ == self@.cache_control,
                None => !valid_header_value(mime_for_path(file_path@)) || !valid_header_value(self@.cache_control),
            },
    {
        let content_type = guess_mime(file_path);
        if !header_value_is_valid(content_type.as_str()) || !header_value_is_valid(self.cache_control.as_str()) {
            return None;
        }
        let mut headers: Vec<(String, String)> = Vec::new();
        headers.push(("content-type".to_owned(), content_type));
        headers.push(("cache-control".to_owned(), self.cache_control.clone()));
        Some(HttpResponse { status: 200, headers, raw_headers: Vec::new(), body: contents })
    }
}

/// An entry of a directory as the listing shows it: its name, the raw bytes it sorts by, whether
/// its file type is a directory (for the order), whether its metadata says directory (for the
/// display), its size in bytes, and its modification time already formatted.
#[derive(Debug)]
pub struct DirEntryInfo {
    pub name: String,
    pub sort_key: Vec<u8>,
    pub sorts_as_dir: bool,
    pub is_dir: bool,
    pub size: u64,
    pub modified: String,
}

/// `a` comes before or with `b` in byte-wise lexicographic order.
pub open spec fn bytes_le(a: Seq<u8>, b: Seq<u8>) -> bool
    decreases a.len(),
{
    if a.len() == 0 {
        true
    } else if b.len() == 0 {
        false
    } else if a[0] != b[0] {
        a[0] < b[0]
    } else {
        bytes_le(a.drop_first(), b.drop_first())
    }
}

/// Any two byte strings are ordered one way or the other.
pub proof fn lemma_bytes_le_total(a: Seq<u8>, b: Seq<u8>)
    ensures
        bytes_le(a, b) || bytes_le(b, a),
    decreases a.len(),
{
    if a.len() > 0 && b.len() > 0 && a[0] == b[0] {
        lemma_bytes_le_total(a.drop_first(), b.drop_first());
    }
}

/// The byte-wise order is transitive.
pub proof fn lemma_bytes_le_transitive(a: Seq<u8>, b: Seq<u8>, c: Seq<u8>)
    requires
        bytes_le(a, b),
        bytes_le(b, c),
    ensures
        bytes_le(a, c),
    decreases a.len(),
{
    if a.len() > 0 && b.len() > 0 && c.len() > 0 && a[0] == b[0] && b[0] == c[0] {
        lemma_bytes_le_transitive(a.drop_first(), b.drop_first(), c.drop_first());
    }
}

/// `a` may be listed before `b`: directories first, then by name bytes.
pub open spec fn listed_before(a: DirEntryInfo, b: DirEntryInfo) -> bool {
    (a.sorts_as_dir && !b.sorts_as_dir) || (a.sorts_as_dir == b.sorts_as_dir && bytes_le(a.sort_key@, b.sort_key@))
}

proof fn lemma_listed_before_total(a: DirEntryInfo, b: DirEntryInfo)
    ensures
        listed_before(a, b) || listed_before(b, a),
{
    lemma_bytes_le_total(a.sort_key@, b.sort_key@);
}

proof fn lemma_listed_before_transitive(a: DirEntryInfo, b: DirEntryInfo, c: DirEntryInfo)
    requires
        listed_before(a, b),
        listed_before(b, c),
    ensures
        listed_before(a, c),
{
    if a.sorts_as_dir == b.sorts_as_dir && b.sorts_as_dir == c.sorts_as_dir {
        lemma_bytes_le_transitive(a.sort_key@, b.sort_key@, c.sort_key@);
    }
}

/// Every entry may be listed before every later one.
pub open spec fn listing_sorted(s: Seq<DirEntryInfo>) -> bool {
    forall|i: int, j: int| 0 <= i < j < s.len() ==> listed_before(#[trigger] s[i], #[trigger] s[j])
}

fn bytes_le_exec(a: &Vec<u8>, b: &Vec<u8>) -> (res: bool)
    ensures
        res == bytes_le(a@, b@),
{
    let mut i: usize = 0;
    assert(a@.skip(0) == a@);
    assert(b@.skip(0) == b@);
    while i < a.len() && i < b.len() && a[i] == b[i]
        invariant
            i <= a@.len(),
            i <= b@.len(),
            bytes_le(a@, b@) == bytes_le(a@.skip(i as int), b@.skip(i as int)),
        decreases a@.len() - i,
    {
        assert(a@.skip(i as int).drop_first() == a@.skip(i + 1));
        assert(b@.skip(i as int).drop_first() == b@.skip(i + 1));
        i = i + 1;
    }
    if i == a.len() {
        true
    } else if i == b.len() {
        false
    } else {
        a[i] < b[i]
    }
}

fn listed_before_exec(a: &DirEntryInfo, b: &DirEntryInfo) -> (res: bool)
    ensures
        res == listed_before(*a, *b),
{
    (a.sorts_as_dir && !b.sorts_as_dir) || (a.sorts_as_dir == b.sorts_as_dir && bytes_le_exec(&a.sort_key, &b.sort_key))
}

/// The entries in listing order: directories first, then by name bytes, the order among equal
/// keys kept (a directory's entries have distinct names, so for them the order is the only one).
pub fn sort_entries(entries: Vec<DirEntryInfo>) -> (res: Vec<DirEntryInfo>)
    ensures
        res@.to_multiset() == entries@.to_multiset(),
        listing_sorted(res@),
{
    broadcast use vstd::seq_lib::group_to_multiset_ensures;
    let ghost all = entries@;
    let mut rest = entries;
    let mut out: Vec<DirEntryInfo> = Vec::new();
    assert(out@.to_multiset() =~= vstd::multiset::Multiset::empty());
    while rest.len() > 0
        invariant
            out@.to_multiset().add(rest@.to_multiset()) == all.to_multiset(),
            listing_sorted(out@),
            forall|i: int, j: int| 0 <= i < out@.len() && 0 <= j < rest@.len() ==> listed_before(#[trigger] out@[i], #[trigger] rest@[j]),
        decreases rest@.len(),
    {
        let mut m: usize = 0;
        let mut i: usize = 1;
        proof { lemma_listed_before_total(rest@[0], rest@[0]); }
        while i < rest.len()
            invariant
                0 <= m < i <= rest@.len(),
                forall|j: int| 0 <= j < i ==> listed_before(rest@[m as int], #[trigger] rest@[j]),
            decreases rest@.len() - i,
        {
            proof { lemma_listed_before_total(rest@[m as int], rest@[i as int]); }
            if !listed_before_exec(&rest[m], &rest[i]) {
                proof {
                    assert forall|j: int| 0 <= j < i + 1 implies listed_before(rest@[i as int], #[trigger] rest@[j]) by {
                        if j < i {
                            lemma_listed_before_transitive(rest@[i as int], rest@[m as int], rest@[j]);
                        } else {
                            lemma_listed_before_total(rest@[i as int], rest@[i as int]);
                        }
                    }
                }
                m = i;
            } else {
                assert(listed_before(rest@[m as int], rest@[i as int]));
            }
            i = i + 1;
        }
        let ghost before_rest = rest@;
        let ghost before_out = out@;
        let x = rest.remove(m);
        proof {
            vstd::seq_lib::to_multiset_remove(before_rest, m as int);
            vstd::seq_lib::to_multiset_contains(before_rest, x);
            assert(before_rest[m as int] == x);
            assert(before_rest.to_multiset().count(x) > 0);
        }
        out.push(x);
        proof {
            vstd::seq_lib::to_multiset_build(before_out, x);
            assert(out@ == before_out.push(x));
            assert(out@.to_multiset() == before_out.to_multiset().insert(x));
            assert(out@.to_multiset().add(rest@.to_multiset()) =~= before_out.to_multiset().add(before_rest.to_multiset()));
            assert forall|a: int, b: int| 0 <= a < b < out@.len() implies listed_before(#[trigger] out@[a], #[trigger] out@[b]) by {
                if b == out@.len() - 1 {
                    assert(before_rest[m as int] == x);
                }
            }
            assert forall|a: int, b: int| 0 <= a < out@.len() && 0 <= b < rest@.len() implies listed_before(#[trigger] out@[a], #[trigger] rest@[b]) by {
                let ob = if b < m { b } else { b + 1 };
                assert(rest@[b] == before_rest[ob]);
                if a < out@.len() - 1 {
                    assert(out@[a] == before_out[a]);
                } else {
                    assert(listed_before(before_rest[m as int], before_rest[ob]));
                }
            }
        }
    }
    assert(rest@.to_multiset() =~= vstd::multiset::Multiset::empty());
    assert(out@.to_multiset() =~= out@.to_multiset().add(rest@.to_multiset()));
    out
}

/// The text a size column shows: `-` for a directory, else the whole kilobytes and ` KB`.
pub open spec fn size_text(e: DirEntryInfo) -> Seq<char> {
    if e.is_dir { "-"@ } else { decimal((e.size / 1024) as nat) + " KB"@ }
}

/// The link of an entry: its name, with a slash after a directory's.
pub open spec fn link_text(e: DirEntryInfo) -> Seq<char> {
    if e.is_dir { e.name@ + "/"@ } else { e.name@ }
}

/// The table row of an entry.
pub open spec fn entry_row(e: DirEntryInfo) -> Seq<char> {
    "<tr><td><a href=\""@ + link_text(e) + "\">"@ + link_text(e) + "</a></td><td>"@ + size_text(e)
        + "</td><td>"@ + e.modified@ + "</td></tr>\n"@
}

/// The rows of the entries, in order.
pub open spec fn entry_rows(s: Seq<DirEntryInfo>) -> Seq<char>
    decreases s.len(),
{
    if s.len() == 0 {
        Seq::empty()
    } else {
        entry_rows(s.drop_last()) + entry_row(s.last())
    }
}

/// The page before the entries' rows: title, style, heading, table head, and a parent link
/// unless the path is `/`.
pub open spec fn listing_head(p: Seq<char>) -> Seq<char> {
    "<!DOCTYPE html>\n"@ + "<html>\n<head>\n"@ + "<title>Directory listing for "@ + p + "</title>\n"@
        + "<style>\n"@
        + "body { font-family: Arial, sans-serif; margin: 20px; }\n"@
        + "h1 { border-bottom: 1px solid #ccc; padding-bottom: 10px; }\n"@
        + "table { border-collapse: collapse; width: 100%; }\n"@
        + "th, td { text-align: left; padding: 8px; border-bottom: 1px solid #ddd; }\n"@
        + "tr:hover { background-color: #f5f5f5; }\n"@
        + "a { text-decoration: none; color: #0366d6; }\n"@
        + "</style>\n"@ + "</head>\n<body>\n"@ + "<h1>Directory listing for "@ + p + "</h1>\n"@
        + "<table>\n"@ + "<tr><th>Name</th><th>Size</th><th>Last Modified</th></tr>\n"@
        + if p != "/"@ { "<tr><td><a href=\"../\">../</a></td><td>-</td><td>-</td></tr>\n"@ } else { Seq::empty() }
}

/// The HTML page listing the entries, in the given order, for the request path `p`.
pub open spec fn listing_html(p: Seq<char>, s: Seq<DirEntryInfo>) -> Seq<char> {
    listing_head(p) + entry_rows(s) + "</table>\n"@ + "</body>\n</html>"@
}

fn push_entry_row(page: &mut String, e: &DirEntryInfo)
    ensures
        final(page)@ == old(page)@ + entry_row(*e),
{
    let mut link = e.name.clone();
    if e.is_dir {
        link.append("/");
    }
    let size = if e.is_dir { "-".to_owned() } else {
        let mut t = u64_to_string(e.size / 1024);
        t.append(" KB");
        t
    };
    page.append("<tr><td><a href=\"");
    page.append(link.as_str());
    page.append("\">");
    page.append(link.as_str());
    page.append("</a></td><td>");
    page.append(size.as_str());
    page.append("</td><td>");
    page.append(e.modified.as_str());
    page.append("</td></tr>\n");
}

impl StaticFilesModule {
    /// The listing page for entries already in listing order, as a 200 HTML response.
    pub fn listing_response(&self, entries: &Vec<DirEntryInfo>, req_path: &str) -> (res: HttpResponse)
        ensures
            res.status == 200,
            res.headers@.len() == 1,
            res.headers@[0].0@ == "content-type"@,
            res.headers@[0].1@ == "text/html; charset=utf-8"@,
            res.body@ == encode_utf8(listing_html(req_path@, entries@)),
    {
        let mut page = "<!DOCTYPE html>\n".to_owned();
        page.append("<html>\n<head>\n");
        page.append("<title>Directory listing for ");
        page.append(req_path);
        page.append("</title>\n");
        page.append("<style>\n");
        page.append("body { font-family: Arial, sans-serif; margin: 20px; }\n");
        page.append("h1 { border-bottom: 1px solid #ccc; padding-bottom: 10px; }\n");
        page.append("table { border-collapse: collapse; width: 100%; }\n");
        page.append("th, td { text-align: left; padding: 8px; border-bottom: 1px solid #ddd; }\n");
        page.append("tr:hover { background-color: #f5f5f5; }\n");
        page.append("a { text-decoration: none; color: #0366d6; }\n");
        page.append("</style>\n");
        page.append("</head>\n<body>\n");
        page.append("<h1>Directory listing for ");
        page.append(req_path);
        page.append("</h1>\n");
        page.append("<table>\n");
        page.append("<tr><th>Name</th><th>Size</th><th>Last Modified</th></tr>\n");
        let p = chars_of(req_path);
        proof { reveal_strlit("/"); }
        if !(p.len() == 1 && p[0] == '/') {
            assert(req_path@ != "/"@);
            page.append("<tr><td><a href=\"../\">../</a></td><td>-</td><td>-</td></tr>\n");
        } else {
            assert(req_path@ == "/"@);
        }
        assert(page@ == listing_head(req_path@));
        for i in 0..entries.len()
            invariant
                page@ == listing_head(req_path@) + entry_rows(entries@.take(i as int)),
        {
            assert(entries@.take(i + 1).drop_last() == entries@.take(i as int));
            push_entry_row(&mut page, &entries[i]);
        }
        assert(entries@.take(entries@.len() as int) == entries@);
        page.append("</table>\n");
        page.append("</body>\n</html>");
        let mut headers: Vec<(String, String)> = Vec::new();
        headers.push(("content-type".to_owned(), "text/html; charset=utf-8".to_owned()));
        HttpResponse { status: 200, headers, raw_headers: Vec::new(), body: text_body(page.as_str()) }
    }

    /// The listing page of a directory for the request path: the entries sorted (directories
    /// first, then by name) and shown one row each.
    pub fn generate_directory_listing(&self, entries: Vec<DirEntryInfo>, req_path: &str) -> (res: HttpResponse)
        ensures
            exists|s: Seq<DirEntryInfo>| s.to_multiset() == entries@.to_multiset() && listing_sorted(s)
                && res.body@ == encode_utf8(listing_html(req_path@, s)),
            res.status == 200,
            res.headers@.len() == 1,
            res.headers@[0].0@ == "content-type"@,
            res.headers@[0].1@ == "text/html; charset=utf-8"@,
    {
        let sorted = sort_entries(entries);
        self.listing_response(&sorted, req_path)
    }
}

} // verus!
