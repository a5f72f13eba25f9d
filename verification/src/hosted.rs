//! The hosted registry: several indexed repositories, one of them active.
use vstd::prelude::*;
use crate::model::Dup;
use crate::server::ApiError;
use crate::text::{chars_of, str_eq, string_of, split_char, split_on_char, views, concat};
use crate::resolve::{join_path, join_chars};

verus! {

/// An indexed repository of the registry.
pub struct HostedRepoRecord {
    pub repo_id: String,
    pub path: String,
    pub db_path: String,
    pub indexed_at: u64,
    pub file_count: usize,
    pub git_url: Option<String>,
    pub git_ref: Option<String>,
}

impl Dup for HostedRepoRecord {
    fn dup(&self) -> (r: Self) {
        HostedRepoRecord {
            repo_id: self.repo_id.clone(),
            path: self.path.clone(),
            db_path: self.db_path.clone(),
            indexed_at: self.indexed_at,
            file_count: self.file_count,
            git_url: self.git_url.dup(),
            git_ref: self.git_ref.dup(),
        }
    }
}

/// The repositories, each id once, and the active one.
pub struct HostedRegistry {
    pub repos: Vec<HostedRepoRecord>,
    pub active_repo_id: Option<String>,
}

/// `GET /repos`.
pub struct ReposListResponse {
    pub repos: Vec<HostedRepoSummary>,
}

/// A repository as `GET /repos` lists it.
pub struct HostedRepoSummary {
    pub repo_id: String,
    pub path: String,
    pub file_count: usize,
    pub indexed_at: u64,
    pub active: bool,
}

/// `POST /activate`.
pub struct ActivateRepoRequest {
    pub repo_id: String,
}

/// The registry kept in a directory.
pub struct HostedStore {
    pub dir: String,
    pub registry: HostedRegistry,
}

/// The summary of a record.
pub open spec fn summary_of(r: HostedRepoRecord, active: Option<String>) -> (Seq<char>, Seq<char>, usize, u64, bool) {
    (r.repo_id@, r.path@, r.file_count, r.indexed_at, active matches Some(a) && a@ == r.repo_id@)
}

pub open spec fn summary_view(s: HostedRepoSummary) -> (Seq<char>, Seq<char>, usize, u64, bool) {
    (s.repo_id@, s.path@, s.file_count, s.indexed_at, s.active)
}

/// The record of `repo_id` among the first `n` records: the first such.
pub open spec fn find_record(repos: Seq<HostedRepoRecord>, repo_id: Seq<char>, n: int) -> Option<int>
    decreases n,
{
    if n <= 0 {
        None
    } else {
        match find_record(repos, repo_id, n - 1) {
            Some(k) => Some(k),
            None => if repos[n - 1].repo_id@ == repo_id { Some(n - 1) } else { None },
        }
    }
}

/// A record of another repository than `repo_id`.
pub open spec fn other_repo(repo_id: Seq<char>) -> spec_fn(HostedRepoRecord) -> bool {
    |r: HostedRepoRecord| r.repo_id@ != repo_id
}

impl HostedStore {
    /// Every repository with whether it is the active one, in registry order.
    pub fn list_summaries(&self) -> (r: ReposListResponse)
        ensures
            r.repos@.len() == self.registry.repos@.len(),
            forall|i: int|
                0 <= i < r.repos@.len() ==> summary_view(#[trigger] r.repos@[i]) == summary_of(
                    self.registry.repos@[i],
                    self.registry.active_repo_id,
                ),
    {
        let mut out: Vec<HostedRepoSummary> = Vec::new();
        let mut i: usize = 0;
        while i < self.registry.repos.len()
            invariant
                i <= self.registry.repos.len(),
                out@.len() == i,
                forall|k: int|
                    0 <= k < i ==> summary_view(#[trigger] out@[k]) == summary_of(self.registry.repos@[k], self.registry.active_repo_id),
            decreases self.registry.repos.len() - i,
        {
            let r = &self.registry.repos[i];
            let active = match &self.registry.active_repo_id {
                Some(a) => str_eq(a.as_str(), r.repo_id.as_str()),
                None => false,
            };
            out.push(HostedRepoSummary {
                repo_id: r.repo_id.clone(),
                path: r.path.clone(),
                file_count: r.file_count,
                indexed_at: r.indexed_at,
                active,
            });
            i += 1;
        }
        ReposListResponse { repos: out }
    }
}

impl HostedRegistry {
    /// The record of `repo_id`, if any.
    pub fn find(&self, repo_id: &str) -> (r: Option<HostedRepoRecord>)
        ensures
            match find_record(self.repos@, repo_id@, self.repos@.len() as int) {
                Some(k) => r == Some(self.repos@[k]),
                None => r is None,
            },
    {
        let mut i: usize = 0;
        while i < self.repos.len()
            invariant
                i <= self.repos.len(),
                find_record(self.repos@, repo_id@, i as int) is None,
            decreases self.repos.len() - i,
        {
            if str_eq(self.repos[i].repo_id.as_str(), repo_id) {
                proof {
                    lemma_find_record_from(self.repos@, repo_id@, i as int + 1, self.repos@.len() as int);
                }
                return Some(self.repos[i].dup());
            }
            i += 1;
        }
        None
    }

    /// Replaces the record of its repository (or adds it) and makes that
    /// repository the active one.
    pub fn record(&mut self, record: HostedRepoRecord)
        ensures
            final(self).repos@ == old(self).repos@.filter(other_repo(record.repo_id@)).push(record),
            final(self).active_repo_id matches Some(a) && a@ == record.repo_id@,
    {
        let ghost pred = other_repo(record.repo_id@);
        let mut kept: Vec<HostedRepoRecord> = Vec::new();
        let mut i: usize = 0;
        while i < self.repos.len()
            invariant
                i <= self.repos.len(),
                pred == other_repo(record.repo_id@),
                kept@ == self.repos@.take(i as int).filter(pred),
            decreases self.repos.len() - i,
        {
            proof {
                crate::store::lemma_filter_step(self.repos@, pred, i as int);
            }
            if !str_eq(self.repos[i].repo_id.as_str(), record.repo_id.as_str()) {
                kept.push(self.repos[i].dup());
            }
            i += 1;
        }
        assert(self.repos@.take(self.repos@.len() as int) =~= self.repos@);
        let id = record.repo_id.clone();
        kept.push(record);
        self.repos = kept;
        self.active_repo_id = Some(id);
    }

    /// Makes `repo_id` the active repository.
    pub fn set_active(&mut self, repo_id: &str)
        ensures
            final(self).repos == old(self).repos,
            final(self).active_repo_id matches Some(a) && a@ == repo_id@,
    {
        self.active_repo_id = Some(repo_id.to_owned());
    }

    /// The record of the active repository, if it is registered.
    pub fn active_record(&self) -> (r: Option<HostedRepoRecord>)
        ensures
            match self.active_repo_id {
                Some(a) => match find_record(self.repos@, a@, self.repos@.len() as int) {
                    Some(k) => r == Some(self.repos@[k]),
                    None => r is None,
                },
                None => r is None,
            },
    {
        match &self.active_repo_id {
            Some(a) => self.find(a.as_str()),
            None => None,
        }
    }

    /// The record of `repo_id`, or `NotFound` naming the repository.
    pub fn require(&self, repo_id: &str) -> (r: Result<HostedRepoRecord, ApiError>)
        ensures
            match find_record(self.repos@, repo_id@, self.repos@.len() as int) {
                Some(k) => r == Ok::<HostedRepoRecord, ApiError>(self.repos@[k]),
                None => r matches Err(ApiError::NotFound(m)) && m@ == "repo "@ + repo_id@,
            },
    {
        match self.find(repo_id) {
            Some(rec) => Ok(rec),
            None => Err(ApiError::NotFound(concat("repo ", repo_id))),
        }
    }
}

proof fn lemma_find_record_from(repos: Seq<HostedRepoRecord>, repo_id: Seq<char>, m: int, n: int)
    requires
        1 <= m <= n <= repos.len(),
        find_record(repos, repo_id, m - 1) is None,
        repos[m - 1].repo_id@ == repo_id,
    ensures
        find_record(repos, repo_id, n) == Some(m - 1),
    decreases n - m,
{
    if n > m {
        lemma_find_record_from(repos, repo_id, m, n - 1);
    }
}

proof fn lemma_find_record_none(repos: Seq<HostedRepoRecord>, repo_id: Seq<char>, n: int)
    requires
        0 <= n <= repos.len(),
        forall|k: int| 0 <= k < n ==> (#[trigger] repos[k]).repo_id@ != repo_id,
    ensures
        find_record(repos, repo_id, n) is None,
    decreases n,
{
    if n > 0 {
        lemma_find_record_none(repos, repo_id, n - 1);
    }
}

/// Recording a repository and then looking it up gives the record just
/// written, and the records of the other repositories are found as before.
pub proof fn lemma_record_then_find(repos: Seq<HostedRepoRecord>, record: HostedRepoRecord, other: Seq<char>)
    requires
        other != record.repo_id@,
    ensures
        ({
            let after = repos.filter(other_repo(record.repo_id@)).push(record);
            &&& find_record(after, record.repo_id@, after.len() as int) == Some(after.len() - 1)
            &&& (find_record(repos, other, repos.len() as int) is Some <==> find_record(after, other, after.len() as int) is Some)
        }),
{
    let kept = repos.filter(other_repo(record.repo_id@));
    let after = kept.push(record);
    repos.lemma_filter_len(other_repo(record.repo_id@));
    assert forall|k: int| 0 <= k < kept.len() implies (#[trigger] after[k]).repo_id@ != record.repo_id@ by {
        assert(after[k] == kept[k]);
        repos.lemma_filter_pred(other_repo(record.repo_id@), k);
    }
    lemma_find_record_none(after, record.repo_id@, kept.len() as int);
    lemma_find_record_exists(repos, other);
    lemma_find_record_exists(after, other);
    if exists|i: int| 0 <= i < repos.len() && (#[trigger] repos[i]).repo_id@ == other {
        let i = choose|i: int| 0 <= i < repos.len() && (#[trigger] repos[i]).repo_id@ == other;
        assert(other_repo(record.repo_id@)(repos[i]));
        repos.lemma_filter_contains(other_repo(record.repo_id@), i);
        let j = choose|j: int| 0 <= j < kept.len() && kept[j] == repos[i];
        assert(after[j] == kept[j]);
    }
    if exists|j: int| 0 <= j < after.len() && (#[trigger] after[j]).repo_id@ == other {
        let j = choose|j: int| 0 <= j < after.len() && (#[trigger] after[j]).repo_id@ == other;
        assert(j < kept.len());
        assert(after[j] == kept[j]);
        assert(kept.contains(kept[j]));
        repos.lemma_filter_contains_rev(other_repo(record.repo_id@), kept[j]);
        let i = choose|i: int| 0 <= i < repos.len() && repos[i] == kept[j];
        assert(repos[i].repo_id@ == other);
    }
}

proof fn lemma_find_record_exists(repos: Seq<HostedRepoRecord>, repo_id: Seq<char>)
    ensures
        find_record(repos, repo_id, repos.len() as int) is Some <==> exists|i: int| 0 <= i < repos.len() && (#[trigger] repos[i]).repo_id@ == repo_id,
{
    lemma_find_record_exists_upto(repos, repo_id, repos.len() as int);
}

proof fn lemma_find_record_exists_upto(repos: Seq<HostedRepoRecord>, repo_id: Seq<char>, n: int)
    requires
        0 <= n <= repos.len(),
    ensures
        find_record(repos, repo_id, n) is Some <==> exists|i: int| 0 <= i < n && (#[trigger] repos[i]).repo_id@ == repo_id,
    decreases n,
{
    if n > 0 {
        lemma_find_record_exists_upto(repos, repo_id, n - 1);
    }
}

/// A character kept in a repository id: an ASCII letter or digit, `-` or `_`.
pub open spec fn is_id_char(c: char) -> bool {
    ('a' <= c && c <= 'z') || ('A' <= c && c <= 'Z') || ('0' <= c && c <= '9') || c == '-' || c == '_'
}

/// `raw` with every other character replaced by `_`.
pub open spec fn sanitized(raw: Seq<char>) -> Seq<char> {
    raw.map_values(|c: char| if is_id_char(c) { c } else { '_' })
}

/// A sanitized id is a single directory name: every character is an id
/// character (so it holds no `/` and no `.`), it is as long as the raw id,
/// and sanitizing it again changes nothing.
pub proof fn lemma_sanitized_is_a_name(raw: Seq<char>)
    ensures
        sanitized(raw).len() == raw.len(),
        forall|i: int| 0 <= i < sanitized(raw).len() ==> is_id_char(#[trigger] sanitized(raw)[i]),
        !sanitized(raw).contains('/'),
        !sanitized(raw).contains('.'),
        sanitized(sanitized(raw)) == sanitized(raw),
{
    let s = sanitized(raw);
    assert forall|i: int| 0 <= i < s.len() implies is_id_char(#[trigger] s[i]) by {
        assert(s[i] == (if is_id_char(raw[i]) { raw[i] } else { '_' }));
    }
    assert(sanitized(s) =~= s);
}

/// A repository id made safe for a directory name.
pub fn sanitize_repo_id(raw: &str) -> (r: String)
    ensures
        r@ == sanitized(raw@),
{
    let cs = chars_of(raw);
    let mut out: Vec<char> = Vec::new();
    let mut i: usize = 0;
    while i < cs.len()
        invariant
            i <= cs.len(),
            cs@ == raw@,
            out@ == sanitized(raw@).take(i as int),
        decreases cs.len() - i,
    {
        let c = cs[i];
        let keep = ('a' <= c && c <= 'z') || ('A' <= c && c <= 'Z') || ('0' <= c && c <= '9') || c == '-' || c == '_';
        out.push(if keep { c } else { '_' });
        assert(sanitized(raw@).take(i + 1) =~= sanitized(raw@).take(i as int).push(if is_id_char(c) { c } else { '_' }));
        i += 1;
    }
    assert(sanitized(raw@).take(cs.len() as int) =~= sanitized(raw@));
    string_of(&out)
}

/// A path component that names something: not empty and not `.`.
pub open spec fn is_named_part(p: Seq<char>) -> bool {
    p.len() > 0 && p != "."@
}

/// The last naming component among the first `n` parts.
pub open spec fn last_named(parts: Seq<Seq<char>>, n: int) -> Option<Seq<char>>
    decreases n,
{
    if n <= 0 {
        None
    } else if is_named_part(parts[n - 1]) {
        Some(parts[n - 1])
    } else {
        last_named(parts, n - 1)
    }
}

/// `Path::file_name`: the last component, none when the path ends in `..`
/// or has no component.
pub open spec fn path_file_name(p: Seq<char>) -> Option<Seq<char>> {
    let parts = split_char(p, '/');
    match last_named(parts, parts.len() as int) {
        Some(n) => if n == ".."@ { None } else { Some(n) },
        None => None,
    }
}

/// The default id of a repository: its directory name, sanitized, or `repo`.
pub fn default_repo_id(path: &str) -> (r: String)
    ensures
        r@ == match path_file_name(path@) {
            Some(n) => sanitized(n),
            None => "repo"@,
        },
{
    let parts = split_on_char(&chars_of(path), '/');
    let ghost ps = views(parts@);
    let mut k: usize = parts.len();
    while k > 0 && !(parts[k - 1].len() > 0 && !(parts[k - 1].len() == 1 && parts[k - 1][0] == '.'))
        invariant
            k <= parts.len(),
            ps == views(parts@),
            last_named(ps, ps.len() as int) == last_named(ps, k as int),
        decreases k,
    {
        proof {
            reveal_strlit(".");
            assert(ps[k - 1] == parts@[k - 1]@);
            if parts@[k - 1]@.len() == 1 && parts@[k - 1]@[0] == '.' {
                assert(parts@[k - 1]@ =~= "."@);
            }
        }
        k -= 1;
    }
    proof {
        reveal_strlit(".");
        reveal_strlit("..");
        if k > 0 {
            assert(ps[k - 1] == parts@[k - 1]@);
            assert(parts@[k - 1]@ != "."@ ==> !(parts@[k - 1]@.len() == 1 && parts@[k - 1]@[0] == '.'));
            assert(is_named_part(ps[k - 1]));
        }
    }
    if k == 0 {
        return "repo".to_owned();
    }
    let name = &parts[k - 1];
    if name.len() == 2 && name[0] == '.' && name[1] == '.' {
        proof {
            reveal_strlit("..");
            assert(name@ =~= ".."@);
        }
        return "repo".to_owned();
    }
    proof {
        reveal_strlit("..");
        assert(name@ != ".."@);
    }
    sanitize_repo_id(string_of(name).as_str())
}

/// Where the index of `repo_id` lives under the registry directory.
pub fn repo_db_path(dir: &str, repo_id: &str) -> (r: String)
    ensures
        r@ == join_path(join_path(dir@, sanitized(repo_id@)), "index.db"@),
{
    let id = sanitize_repo_id(repo_id);
    let repo_dir = join_chars(&chars_of(dir), &chars_of(id.as_str()));
    let db = join_chars(&repo_dir, &chars_of("index.db"));
    string_of(&db)
}

/// The directory of the hosted registry: `GRAPH_HOSTED_DIR` when it is set,
/// else `.graph/hosted` under the home directory, else none. `env_dir` and
/// `home` are the values of `GRAPH_HOSTED_DIR` and `HOME`.
pub fn hosted_dir_choice(env_dir: Option<String>, home: Option<String>) -> (r: Option<String>)
    ensures
        match env_dir {
            Some(d) => r == Some(d),
            None => match home {
                Some(h) => r matches Some(p) && p@ == join_path(join_path(h@, ".graph"@), "hosted"@),
                None => r is None,
            },
        },
{
    match env_dir {
        Some(d) => Some(d),
        None => match home {
            Some(h) => {
                let g = join_chars(&chars_of(h.as_str()), &chars_of(".graph"));
                let p = join_chars(&g, &chars_of("hosted"));
                Some(string_of(&p))
            },
            None => None,
        },
    }
}

} // verus!
