//! The on-disk workspace: one directory per repository with `repository`,
//! `bin` and `result` subdirectories, a cache ceiling, and eviction plans
//! when the ceiling is crossed. The library decides which paths to create
//! and remove; the surrounding process touches the disk.

use vstd::prelude::*;
use vstd::string::*;

use crate::text::u64_to_chars;

verus! {

/// One directory operation of a cleaning plan, in execution order.
#[derive(Debug, Clone, PartialEq)]
pub enum FsAction {
    /// Recursively delete the tree at the path; absence is tolerated.
    RemoveTree(String),
    /// Create the directory if it does not exist yet.
    EnsureDir(String),
    /// Create the directory, which is expected to be absent.
    CreateDir(String),
}

/// The ghost image of a directory operation, over character sequences.
pub enum FsActionModel {
    RemoveTree(Seq<char>),
    EnsureDir(Seq<char>),
    CreateDir(Seq<char>),
}

impl View for FsAction {
    type V = FsActionModel;

    open spec fn view(&self) -> FsActionModel {
        match self {
            FsAction::RemoveTree(p) => FsActionModel::RemoveTree(p@),
            FsAction::EnsureDir(p) => FsActionModel::EnsureDir(p@),
            FsAction::CreateDir(p) => FsActionModel::CreateDir(p@),
        }
    }
}

/// A top-level workspace entry, as listed by the surrounding process: a
/// directory name and its recursive size in bytes.
#[derive(Debug, Clone, PartialEq)]
pub struct DirEntry {
    pub name: String,
    pub size: u64,
}

/// The bytes held by a list of directories.
pub open spec fn spec_total_size(dirs: Seq<DirEntry>) -> int
    decreases dirs.len(),
{
    if dirs.len() == 0 {
        0
    } else {
        spec_total_size(dirs.drop_last()) + dirs.last().size
    }
}

pub proof fn lemma_total_size_nonneg(dirs: Seq<DirEntry>)
    ensures
        spec_total_size(dirs) >= 0,
    decreases dirs.len(),
{
    if dirs.len() > 0 {
        lemma_total_size_nonneg(dirs.drop_last());
    }
}

pub proof fn lemma_total_size_take(dirs: Seq<DirEntry>, i: int)
    requires
        0 <= i <= dirs.len(),
    ensures
        spec_total_size(dirs.take(i)) <= spec_total_size(dirs),
        spec_total_size(dirs.take(i)) >= 0,
    decreases dirs.len() - i,
{
    lemma_total_size_nonneg(dirs.take(i));
    if i < dirs.len() {
        lemma_total_size_take(dirs, i + 1);
        assert(dirs.take(i + 1).drop_last() =~= dirs.take(i));
        assert(spec_total_size(dirs.take(i + 1)) == spec_total_size(dirs.take(i))
            + dirs[i].size);
    } else {
        assert(dirs.take(i) =~= dirs);
    }
}

/// The remaining bytes once the first `removed` directories are gone,
/// counting also the `loose` bytes that no top-level directory holds.
pub open spec fn spec_usage_after(loose: u64, dirs: Seq<DirEntry>, removed: int) -> int {
    loose + spec_total_size(dirs.skip(removed))
}

/// The root of one repository's area: `<base>/<repository-id>`.
pub open spec fn spec_repo_root(base: Seq<char>, rid: Seq<char>) -> Seq<char> {
    base + "/"@ + rid
}

/// The cleaning plan for one repository area. A full clean removes the
/// whole area; a normal clean removes only the script and result slots.
/// Either way the area ends with the root present and fresh, empty `bin`
/// and `result` directories.
pub open spec fn spec_clean_actions(base: Seq<char>, rid: Seq<char>, full_clean: bool) -> Seq<
    FsActionModel,
> {
    let root = spec_repo_root(base, rid);
    let tail = seq![
        FsActionModel::EnsureDir(root),
        FsActionModel::CreateDir(root + "/bin"@),
        FsActionModel::CreateDir(root + "/result"@),
    ];
    if full_clean {
        seq![FsActionModel::RemoveTree(root)] + tail
    } else {
        seq![
            FsActionModel::RemoveTree(root + "/bin"@),
            FsActionModel::RemoveTree(root + "/result"@),
        ] + tail
    }
}

/// The plan that resets only the script slot, used between stages.
pub open spec fn spec_clean_bin_actions(base: Seq<char>, rid: Seq<char>) -> Seq<
    FsActionModel,
> {
    let root = spec_repo_root(base, rid);
    seq![
        FsActionModel::RemoveTree(root + "/bin"@),
        FsActionModel::CreateDir(root + "/bin"@),
    ]
}

/// Why a workspace cannot be set up.
#[derive(Debug, Clone, PartialEq, Eq)]
pub enum WorkspaceError {
    /// The directory already holds at least as many bytes as the ceiling
    /// allows.
    AlreadyFull,
}

/// A workspace rooted at a resolved base directory with a cache ceiling in
/// bytes.
#[derive(Debug, Clone, PartialEq)]
pub struct Workspace {
    pub base_path: String,
    pub cache_size: u64,
}

impl Workspace {
    /// Adopts a resolved base directory whose current usage still leaves
    /// room under the ceiling; a directory already at the ceiling is
    /// refused.
    pub fn new(base_path: String, cache_size: u64, current_usage: u64) -> (r: Result<
        Workspace,
        WorkspaceError,
    >)
        ensures
            match r {
                Ok(w) => {
                    &&& current_usage < cache_size
                    &&& w.base_path@ == base_path@
                    &&& w.cache_size == cache_size
                },
                Err(e) => {
                    &&& e == WorkspaceError::AlreadyFull
                    &&& current_usage >= cache_size
                },
            },
    {
        if current_usage >= cache_size {
            return Err(WorkspaceError::AlreadyFull);
        }
        Ok(Workspace { base_path, cache_size })
    }

    /// The resolved base directory.
    pub fn get_path(&self) -> (r: &str)
        ensures
            r@ == self.base_path@,
    {
        self.base_path.as_str()
    }

    /// The root of one repository's area.
    pub fn repository_root(&self, repository_id: &str) -> (r: String)
        ensures
            r@ == spec_repo_root(self.base_path@, repository_id@),
    {
        let mut r: String = String::new();
        r.append(self.base_path.as_str());
        r.append("/");
        r.append(repository_id);
        proof {
            assert(r@ =~= spec_repo_root(self.base_path@, repository_id@));
        }
        r
    }

    /// The path of a file inside one repository's area.
    pub fn file_path(&self, repository_id: &str, relative_path: &str) -> (r: String)
        ensures
            r@ == spec_repo_root(self.base_path@, repository_id@) + "/"@ + relative_path@,
    {
        let mut r = self.repository_root(repository_id);
        r.append("/");
        r.append(relative_path);
        proof {
            assert(r@ =~= spec_repo_root(self.base_path@, repository_id@) + "/"@
                + relative_path@);
        }
        r
    }

    /// The plan that brings one repository area to a known-good state:
    /// root present, `bin` and `result` fresh and empty.
    pub fn clean_actions(&self, repository_id: &str, full_clean: bool) -> (acts: Vec<
        FsAction,
    >)
        ensures
            acts@.map_values(|a: FsAction| a@) == spec_clean_actions(
                self.base_path@,
                repository_id@,
                full_clean,
            ),
    {
        let root = self.repository_root(repository_id);
        let bin = self.file_path(repository_id, "bin");
        let result = self.file_path(repository_id, "result");
        proof {
            reveal_strlit("/");
            reveal_strlit("bin");
            reveal_strlit("/bin");
            reveal_strlit("result");
            reveal_strlit("/result");
            assert(bin@ =~= spec_repo_root(self.base_path@, repository_id@) + "/bin"@);
            assert(result@ =~= spec_repo_root(self.base_path@, repository_id@)
                + "/result"@);
        }
        let mut acts: Vec<FsAction> = Vec::new();
        if full_clean {
            acts.push(FsAction::RemoveTree(root.clone()));
        } else {
            acts.push(FsAction::RemoveTree(bin.clone()));
            acts.push(FsAction::RemoveTree(result.clone()));
        }
        acts.push(FsAction::EnsureDir(root));
        acts.push(FsAction::CreateDir(bin));
        acts.push(FsAction::CreateDir(result));
        proof {
            assert(acts@.map_values(|a: FsAction| a@) =~= spec_clean_actions(
                self.base_path@,
                repository_id@,
                full_clean,
            ));
        }
        acts
    }

    /// The plan that resets only the script slot, used between stages so
    /// one stage's script cannot leak into the next.
    pub fn clean_bin_actions(&self, repository_id: &str) -> (acts: Vec<FsAction>)
        ensures
            acts@.map_values(|a: FsAction| a@) == spec_clean_bin_actions(
                self.base_path@,
                repository_id@,
            ),
    {
        let bin = self.file_path(repository_id, "bin");
        proof {
            reveal_strlit("/");
            reveal_strlit("bin");
            reveal_strlit("/bin");
            assert(bin@ =~= spec_repo_root(self.base_path@, repository_id@) + "/bin"@);
        }
        let mut acts: Vec<FsAction> = Vec::new();
        acts.push(FsAction::RemoveTree(bin.clone()));
        acts.push(FsAction::CreateDir(bin));
        proof {
            assert(acts@.map_values(|a: FsAction| a@) =~= spec_clean_bin_actions(
                self.base_path@,
                repository_id@,
            ));
        }
        acts
    }

    /// Picks the directories to evict, in listing order, until usage falls
    /// under the ceiling, the workspace has no directory left, or ten
    /// evictions have been planned — whichever comes first. Directories
    /// are only evicted while usage is still at or over the ceiling.
    ///
    /// With at most ten top-level directories this guarantees the pruner
    /// post-condition: afterwards either usage is under the ceiling or no
    /// removable directory remains.
    pub fn plan_pruning(&self, loose_bytes: u64, dirs: &Vec<DirEntry>) -> (victims: Vec<
        String,
    >)
        requires
            loose_bytes + spec_total_size(dirs@) <= u64::MAX,
        ensures
            victims@.len() <= 10,
            victims@.len() <= dirs@.len(),
            forall|k: int|
                0 <= k < victims@.len() ==> victims@[k]@ == dirs@[k].name@,
            forall|k: int|
                0 <= k < victims@.len() ==> spec_usage_after(loose_bytes, dirs@, k)
                    >= self.cache_size,
            spec_usage_after(loose_bytes, dirs@, victims@.len() as int) < self.cache_size
                || victims@.len() == dirs@.len() || victims@.len() == 10,
            dirs@.len() <= 10 ==> (spec_usage_after(loose_bytes, dirs@, victims@.len() as int)
                < self.cache_size || victims@.len() == dirs@.len()),
    {
        let mut total: u64 = loose_bytes;
        let mut i: usize = 0;
        while i < dirs.len()
            invariant
                i <= dirs@.len(),
                total == loose_bytes + spec_total_size(dirs@.take(i as int)),
                loose_bytes + spec_total_size(dirs@) <= u64::MAX,
            decreases dirs.len() - i,
        {
            proof {
                lemma_total_size_take(dirs@, i as int + 1);
                assert(dirs@.take(i as int + 1).drop_last() =~= dirs@.take(i as int));
                assert(spec_total_size(dirs@.take(i as int + 1)) == spec_total_size(
                    dirs@.take(i as int),
                ) + dirs@[i as int].size);
            }
            total = total + dirs[i].size;
            i = i + 1;
        }
        proof {
            assert(dirs@.take(dirs@.len() as int) =~= dirs@);
        }
        let mut usage: u64 = total;
        let mut victims: Vec<String> = Vec::new();
        let mut k: usize = 0;
        while k < dirs.len() && k < 10 && usage >= self.cache_size
            invariant
                k <= dirs@.len(),
                k <= 10,
                victims@.len() == k,
                usage == spec_usage_after(loose_bytes, dirs@, k as int),
                loose_bytes + spec_total_size(dirs@) <= u64::MAX,
                forall|j: int| 0 <= j < k ==> victims@[j]@ == dirs@[j].name@,
                forall|j: int|
                    0 <= j < k ==> spec_usage_after(loose_bytes, dirs@, j)
                        >= self.cache_size,
            decreases dirs.len() - k,
        {
            proof {
                lemma_skip_first(dirs@, k as int);
                lemma_total_size_nonneg(dirs@.skip(k as int + 1));
            }
            let mut name: String = String::new();
            name.append(dirs[k].name.as_str());
            proof {
                assert(name@ =~= dirs@[k as int].name@);
            }
            victims.push(name);
            usage = usage - dirs[k].size;
            k = k + 1;
        }
        victims
    }
}

/// The sum over a suffix, peeled from the front.
proof fn lemma_skip_first(dirs: Seq<DirEntry>, k: int)
    requires
        0 <= k < dirs.len(),
    ensures
        spec_total_size(dirs.skip(k)) == dirs[k].size + spec_total_size(dirs.skip(k + 1)),
    decreases dirs.len(),
{
    let s = dirs.skip(k);
    if s.len() == 1 {
        assert(s.drop_last() =~= Seq::<DirEntry>::empty());
        assert(dirs.skip(k + 1) =~= Seq::<DirEntry>::empty());
    } else {
        assert(s.drop_last() =~= dirs.take(dirs.len() - 1).skip(k));
        assert(s.last() == dirs.last());
        lemma_skip_first(dirs.take(dirs.len() - 1), k);
        assert(dirs.take(dirs.len() - 1).skip(k + 1) =~= dirs.skip(k + 1).drop_last());
        assert(dirs.take(dirs.len() - 1)[k] == dirs[k]);
        assert(spec_total_size(dirs.skip(k + 1)) == spec_total_size(
            dirs.skip(k + 1).drop_last(),
        ) + dirs.skip(k + 1).last().size);
        assert(dirs.skip(k + 1).last() == dirs.last());
    }
}

/// A human-readable byte count in whole megabytes, used in log lines.
pub fn megabytes_of(bytes: u64) -> (r: String)
    ensures
        r@ == crate::text::spec_digits((bytes / 1_000_000) as nat),
{
    let chars = u64_to_chars(bytes / 1_000_000);
    crate::text::string_from_chars(&chars)
}

} // verus!
