//! The dependency resolver: one `add` operation as an explicit machine.
//!
//! Network work cannot happen here, so the operation is a stack of jobs
//! that the surrounding program advances step by step: `next_step` says
//! whether to ask a provider for a descriptor or to download a resolved
//! artifact, `on_descriptor` and `on_downloaded` take the outcomes back.
//! Dependencies are resolved depth-first in declared order and committed
//! before the artifact that declared them; an already-installed
//! dependency is skipped, and a dependency that reappears while it is
//! still being resolved aborts the operation.

use vstd::prelude::*;
use vstd::string::StringExecFns;

use crate::error::Error;
use crate::loader::LoaderModel;
use crate::lockfile::{
    spec_contains_key, spec_initialized, spec_matches_key, spec_same_identity, spec_upsert_index,
    Lockfile, LockfileModel,
};
use crate::plugin::{spec_deps, DepModel, Dependency, Info, InfoModel};
use crate::strutil;

verus! {

/// One pending provider resolution: which provider to ask, for which
/// project, at which version.
pub struct Task {
    pub provider: String,
    pub id: String,
    pub name: String,
    pub version: String,
    pub root: bool,
}

/// The mathematical value of a pending resolution.
pub ghost struct TaskModel {
    pub provider: Seq<char>,
    pub id: Seq<char>,
    pub name: Seq<char>,
    pub version: Seq<char>,
    pub root: bool,
}

impl View for Task {
    type V = TaskModel;

    open spec fn view(&self) -> TaskModel {
        TaskModel {
            provider: self.provider@,
            id: self.id@,
            name: self.name@,
            version: self.version@,
            root: self.root,
        }
    }
}

impl Clone for Task {
    /// A clone keeps every field.
    fn clone(&self) -> (r: Self)
        ensures
            r@ == self@,
    {
        Task {
            provider: self.provider.clone(),
            id: self.id.clone(),
            name: self.name.clone(),
            version: self.version.clone(),
            root: self.root,
        }
    }
}

/// An entry of the resolution stack: either a project still to resolve, or
/// a resolved artifact waiting for download and commit.
pub enum Job {
    Resolve(Task),
    Install(Info),
}

/// The mathematical value of a stack entry.
pub ghost enum JobModel {
    Resolve(TaskModel),
    Install(InfoModel),
}

impl View for Job {
    type V = JobModel;

    open spec fn view(&self) -> JobModel {
        match self {
            Job::Resolve(t) => JobModel::Resolve(t@),
            Job::Install(m) => JobModel::Install(m@),
        }
    }
}

/// What the caller must do next to advance an `add` operation.
pub enum Step {
    /// Ask the provider for this project's descriptor, then report it
    /// through `on_descriptor`.
    Fetch(Task),
    /// Download this artifact's file, then report through `on_downloaded`.
    Download(Info),
    /// The operation is complete.
    Done,
}

/// The mathematical value of a step.
pub ghost enum StepModel {
    Fetch(TaskModel),
    Download(InfoModel),
    Done,
}

impl View for Step {
    type V = StepModel;

    open spec fn view(&self) -> StepModel {
        match self {
            Step::Fetch(t) => StepModel::Fetch(t@),
            Step::Download(m) => StepModel::Download(m@),
            Step::Done => StepModel::Done,
        }
    }
}

/// The state of one `add` operation: a stack of pending jobs, worked
/// depth-first, dependencies before the artifact that declared them.
pub struct Resolver {
    pub jobs: Vec<Job>,
    pub no_deps: bool,
    pub include_optional: bool,
}

/// The mathematical value of a resolver.
pub ghost struct ResolverModel {
    pub jobs: Seq<JobModel>,
    pub no_deps: bool,
    pub include_optional: bool,
}

impl View for Resolver {
    type V = ResolverModel;

    open spec fn view(&self) -> ResolverModel {
        ResolverModel {
            jobs: self.jobs@.map_values(|j: Job| j@),
            no_deps: self.no_deps,
            include_optional: self.include_optional,
        }
    }
}

/// A pending resolution is skipped when it is not the root request and an
/// artifact with the same identity is already installed.
pub open spec fn spec_skip_job(j: JobModel, lf: LockfileModel) -> bool {
    match j {
        JobModel::Resolve(t) => !t.root && (spec_contains_key(lf.mods, t.name)
            || spec_contains_key(lf.mods, t.id)),
        JobModel::Install(_) => false,
    }
}

/// The stack after dropping every skippable resolution from the top.
pub open spec fn spec_settle(jobs: Seq<JobModel>, lf: LockfileModel) -> Seq<JobModel>
    decreases jobs.len(),
{
    if jobs.len() == 0 {
        jobs
    } else if spec_skip_job(jobs.last(), lf) {
        spec_settle(jobs.drop_last(), lf)
    } else {
        jobs
    }
}

/// The action the top of a settled stack calls for.
pub open spec fn spec_step_of(jobs: Seq<JobModel>) -> StepModel {
    if jobs.len() == 0 {
        StepModel::Done
    } else {
        match jobs.last() {
            JobModel::Resolve(t) => StepModel::Fetch(t),
            JobModel::Install(m) => StepModel::Download(m),
        }
    }
}

/// The declared dependencies that the operation will follow, in declared
/// order: none when dependencies are skipped, otherwise the required ones
/// and, when asked, the optional ones too.
pub open spec fn spec_selected_deps(m: InfoModel, no_deps: bool, include_optional: bool) -> Seq<
    DepModel,
>
    decreases spec_deps(m).len(),
{
    if no_deps {
        Seq::empty()
    } else {
        spec_selected_from(spec_deps(m), include_optional)
    }
}

/// The dependencies of `deps` that are followed: required ones, and all
/// of them when optional ones are included.
pub open spec fn spec_selected_from(deps: Seq<DepModel>, include_optional: bool) -> Seq<DepModel>
    decreases deps.len(),
{
    if deps.len() == 0 {
        Seq::empty()
    } else {
        let p = spec_selected_from(deps.drop_last(), include_optional);
        if deps.last().required || include_optional {
            p.push(deps.last())
        } else {
            p
        }
    }
}

/// The pending resolution a dependency turns into: same provider, the
/// dependency's id, version pinned to `latest`, not a root request.
pub open spec fn spec_dep_task(d: DepModel, provider: Seq<char>) -> TaskModel {
    TaskModel { provider, id: d.id, name: d.name, version: "latest"@, root: false }
}

/// The resolutions for `deps`, pushed so that the first declared
/// dependency ends on top of the stack.
pub open spec fn spec_rev_tasks(deps: Seq<DepModel>, provider: Seq<char>) -> Seq<JobModel> {
    Seq::new(deps.len(), |j: int| JobModel::Resolve(spec_dep_task(deps[deps.len() - 1 - j], provider)))
}

/// Whether some artifact with canonical id `id` is already on the stack
/// waiting for its own commit: following it again would cycle.
pub open spec fn spec_job_installs(j: JobModel, id: Seq<char>) -> bool {
    match j {
        JobModel::Install(m) => m.id == id,
        JobModel::Resolve(_) => false,
    }
}

pub open spec fn spec_id_resolving(jobs: Seq<JobModel>, id: Seq<char>) -> bool {
    exists|i: int| 0 <= i < jobs.len() && spec_job_installs(#[trigger] jobs[i], id)
}

/// The stack after a descriptor for the top resolution arrives: the
/// resolution becomes a pending install, with the followed dependencies'
/// resolutions stacked above it.
pub open spec fn spec_after_descriptor(
    jobs: Seq<JobModel>,
    m: InfoModel,
    no_deps: bool,
    include_optional: bool,
) -> Seq<JobModel> {
    let provider = match jobs.last() {
        JobModel::Resolve(t) => t.provider,
        JobModel::Install(_) => Seq::empty(),
    };
    jobs.drop_last().push(JobModel::Install(m)) + spec_rev_tasks(
        spec_selected_deps(m, no_deps, include_optional),
        provider,
    )
}

/// Begin adding an artifact, choosing whether optional dependencies are
/// followed too: rejected when the lockfile is not initialized, or when
/// the artifact is already installed.
pub fn add_with_options(
    lf: &Lockfile,
    provider: &str,
    project_id: &str,
    version: &str,
    no_deps: bool,
    include_optional: bool,
) -> (r: Result<Resolver, Error>)
    ensures
        match r {
            Ok(res) => spec_initialized(lf@) && !spec_contains_key(lf@.mods, project_id@)
                && res@.jobs == seq![
                JobModel::Resolve(
                    TaskModel {
                        provider: provider@,
                        id: project_id@,
                        name: project_id@,
                        version: version@,
                        root: true,
                    },
                ),
            ] && res@.no_deps == no_deps && res@.include_optional == include_optional,
            Err(e) => (e is NotInitialized && !spec_initialized(lf@)) || (e is AlreadyInstalled
                && spec_initialized(lf@) && spec_contains_key(lf@.mods, project_id@)),
        },
{
    if !lf.is_initialized() {
        return Err(Error::NotInitialized);
    }
    if lf.get(project_id).is_ok() {
        return Err(Error::AlreadyInstalled);
    }
    let task = Task {
        provider: provider.to_owned(),
        id: project_id.to_owned(),
        name: project_id.to_owned(),
        version: version.to_owned(),
        root: true,
    };
    let mut jobs: Vec<Job> = Vec::new();
    jobs.push(Job::Resolve(task));
    let res = Resolver { jobs, no_deps, include_optional };
    proof {
        assert(res@.jobs =~= seq![
            JobModel::Resolve(
                TaskModel {
                    provider: provider@,
                    id: project_id@,
                    name: project_id@,
                    version: version@,
                    root: true,
                },
            ),
        ]);
    }
    Ok(res)
}

/// Begin adding an artifact, following required dependencies only.
pub fn add(
    lf: &Lockfile,
    provider: &str,
    project_id: &str,
    version: &str,
    no_deps: bool,
) -> (r: Result<Resolver, Error>)
    ensures
        match r {
            Ok(res) => spec_initialized(lf@) && !spec_contains_key(lf@.mods, project_id@)
                && res@.jobs == seq![
                JobModel::Resolve(
                    TaskModel {
                        provider: provider@,
                        id: project_id@,
                        name: project_id@,
                        version: version@,
                        root: true,
                    },
                ),
            ] && res@.no_deps == no_deps && res@.include_optional == false,
            Err(e) => (e is NotInitialized && !spec_initialized(lf@)) || (e is AlreadyInstalled
                && spec_initialized(lf@) && spec_contains_key(lf@.mods, project_id@)),
        },
{
    add_with_options(lf, provider, project_id, version, no_deps, false)
}

/// The adds one `update` request expands to: the named artifact, or every
/// installed artifact when the id is the `all` sentinel.
pub fn update(lf: &Lockfile, id: &str, version: &str, no_deps: bool) -> (r: Result<
    Vec<Task>,
    Error,
>)
    ensures
        match r {
            Ok(tasks) => spec_initialized(lf@) && (if id@ == "all"@ {
                tasks@.len() == lf@.mods.len() && (forall|i: int|
                    0 <= i < tasks@.len() ==> tasks@[i]@ == (TaskModel {
                        provider: "modrinth"@,
                        id: lf@.mods[i].name,
                        name: lf@.mods[i].name,
                        version: version@,
                        root: true,
                    }))
            } else {
                tasks@.len() == 1 && tasks@[0]@ == (TaskModel {
                    provider: "modrinth"@,
                    id: id@,
                    name: id@,
                    version: version@,
                    root: true,
                })
            }),
            Err(e) => e is NotInitialized && !spec_initialized(lf@),
        },
{
    if !lf.is_initialized() {
        return Err(Error::NotInitialized);
    }
    let mut tasks: Vec<Task> = Vec::new();
    if strutil::str_eq(id, "all") {
        let n = lf.mods.len();
        let mut i: usize = 0;
        while i < n
            invariant
                n == lf@.mods.len(),
                n == lf.mods@.len(),
                0 <= i <= n,
                tasks@.len() == i,
                forall|j: int|
                    0 <= j < i ==> tasks@[j]@ == (TaskModel {
                        provider: "modrinth"@,
                        id: lf@.mods[j].name,
                        name: lf@.mods[j].name,
                        version: version@,
                        root: true,
                    }),
            decreases n - i,
        {
            tasks.push(
                Task {
                    provider: "modrinth".to_owned(),
                    id: lf.mods[i].name.clone(),
                    name: lf.mods[i].name.clone(),
                    version: version.to_owned(),
                    root: true,
                },
            );
            i += 1;
        }
        Ok(tasks)
    } else {
        tasks.push(
            Task {
                provider: "modrinth".to_owned(),
                id: id.to_owned(),
                name: id.to_owned(),
                version: version.to_owned(),
                root: true,
            },
        );
        Ok(tasks)
    }
}

impl Resolver {
    /// Skip every already-installed dependency on top of the stack, then
    /// say what to do next: resolve, download, or stop.
    pub fn next_step(&mut self, lf: &Lockfile) -> (s: Step)
        ensures
            final(self)@.jobs == spec_settle(old(self)@.jobs, lf@),
            final(self)@.no_deps == old(self)@.no_deps,
            final(self)@.include_optional == old(self)@.include_optional,
            s@ == spec_step_of(final(self)@.jobs),
    {
        loop
            invariant
                spec_settle(self@.jobs, lf@) == spec_settle(old(self)@.jobs, lf@),
                self@.no_deps == old(self)@.no_deps,
                self@.include_optional == old(self)@.include_optional,
            decreases self.jobs@.len(),
        {
            let n = self.jobs.len();
            if n == 0 {
                return Step::Done;
            }
            let skip = match &self.jobs[n - 1] {
                Job::Resolve(t) => {
                    if t.root {
                        false
                    } else {
                        let by_name = lf.get(t.name.as_str()).is_ok();
                        let by_id = lf.get(t.id.as_str()).is_ok();
                        by_name || by_id
                    }
                },
                Job::Install(_) => false,
            };
            proof {
                assert(self@.jobs.last() == self.jobs@[n - 1]@);
                assert(skip == spec_skip_job(self@.jobs.last(), lf@));
            }
            if skip {
                let ghost before = self@.jobs;
                self.jobs.pop();
                proof {
                    assert(self@.jobs =~= before.drop_last());
                }
            } else {
                let s = match &self.jobs[n - 1] {
                    Job::Resolve(t) => Step::Fetch(t.clone()),
                    Job::Install(m) => Step::Download(m.clone()),
                };
                return s;
            }
        }
    }

    /// Take the provider's descriptor for the top resolution: push its
    /// install, stack the followed dependencies above it, or reject the
    /// whole operation when a followed dependency is already being
    /// resolved further down the stack.
    pub fn on_descriptor(&mut self, info: Info) -> (r: Result<(), Error>)
        requires
            old(self)@.jobs.len() > 0,
            old(self)@.jobs.last() is Resolve,
        ensures
            final(self)@.no_deps == old(self)@.no_deps,
            final(self)@.include_optional == old(self)@.include_optional,
            match r {
                Ok(_) => final(self)@.jobs == spec_after_descriptor(
                    old(self)@.jobs,
                    info@,
                    old(self)@.no_deps,
                    old(self)@.include_optional,
                ) && (forall|k: int|
                    0 <= k < spec_selected_deps(
                        info@,
                        old(self)@.no_deps,
                        old(self)@.include_optional,
                    ).len() ==> !spec_id_resolving(
                        old(self)@.jobs,
                        spec_selected_deps(
                            info@,
                            old(self)@.no_deps,
                            old(self)@.include_optional,
                        )[k].id,
                    ) && spec_selected_deps(
                        info@,
                        old(self)@.no_deps,
                        old(self)@.include_optional,
                    )[k].id != info@.id),
                Err(e) => e is CyclicDependency && final(self)@ == old(self)@ && (exists|k: int|
                    0 <= k < spec_selected_deps(
                        info@,
                        old(self)@.no_deps,
                        old(self)@.include_optional,
                    ).len() && (spec_id_resolving(
                        old(self)@.jobs,
                        spec_selected_deps(
                            info@,
                            old(self)@.no_deps,
                            old(self)@.include_optional,
                        )[k].id,
                    ) || spec_selected_deps(
                        info@,
                        old(self)@.no_deps,
                        old(self)@.include_optional,
                    )[k].id == info@.id)),
            },
    {
        let ghost sel_spec = spec_selected_deps(info@, self.no_deps, self.include_optional);
        let sel = selected_deps(&info, self.no_deps, self.include_optional);
        let mut k: usize = 0;
        let n = sel.len();
        while k < n
            invariant
                self@ == old(self)@,
                sel_spec == spec_selected_deps(info@, self@.no_deps, self@.include_optional),
                sel@.map_values(|d: Dependency| d@) == sel_spec,
                n == sel@.len(),
                n == sel_spec.len(),
                0 <= k <= n,
                forall|j: int|
                    0 <= j < k ==> !spec_id_resolving(self@.jobs, sel_spec[j].id)
                        && sel_spec[j].id != info@.id,
            decreases n - k,
        {
            proof {
                assert(sel_spec[k as int] == sel@[k as int]@);
            }
            if strutil::string_eq(&sel[k].id, &info.id) {
                return Err(Error::CyclicDependency);
            }
            if self.id_resolving(&sel[k].id) {
                return Err(Error::CyclicDependency);
            }
            k += 1;
        }
        let ghost info_m = info@;
        let task = match self.jobs.pop() {
            Some(Job::Resolve(t)) => t,
            _ => vstd::pervasive::unreached(),
        };
        let ghost prov = task@.provider;
        let ghost popped = self@.jobs;
        proof {
            assert(popped =~= old(self)@.jobs.drop_last());
            assert(JobModel::Resolve(task@) == old(self)@.jobs.last());
        }
        self.jobs.push(Job::Install(info));
        let ghost based = self@.jobs;
        proof {
            assert(based =~= popped.push(JobModel::Install(info_m)));
        }
        let mut k2: usize = n;
        while k2 > 0
            invariant
                self@.no_deps == old(self)@.no_deps,
                self@.include_optional == old(self)@.include_optional,
                sel@.map_values(|d: Dependency| d@) == sel_spec,
                n == sel@.len(),
                n == sel_spec.len(),
                0 <= k2 <= n,
                prov == task@.provider,
                self@.jobs =~= based + spec_rev_tasks(sel_spec, prov).take((n - k2) as int),
            decreases k2,
        {
            k2 -= 1;
            let ghost jb = self@.jobs;
            self.jobs.push(
                Job::Resolve(
                    Task {
                        provider: task.provider.clone(),
                        id: sel[k2].id.clone(),
                        name: sel[k2].name.clone(),
                        version: "latest".to_owned(),
                        root: false,
                    },
                ),
            );
            proof {
                assert(sel_spec[k2 as int] == sel@[k2 as int]@);
                assert(spec_rev_tasks(sel_spec, prov)[n - 1 - k2] == JobModel::Resolve(
                    spec_dep_task(sel_spec[k2 as int], prov),
                ));
                assert(self@.jobs =~= jb.push(
                    JobModel::Resolve(spec_dep_task(sel_spec[k2 as int], prov)),
                ));
                assert(self@.jobs =~= based + spec_rev_tasks(sel_spec, prov).take(
                    (n - k2) as int,
                ));
            }
        }
        proof {
            assert(spec_rev_tasks(sel_spec, prov).take(n as int) =~= spec_rev_tasks(
                sel_spec,
                prov,
            ));
            assert(self@.jobs =~= spec_after_descriptor(
                old(self)@.jobs,
                info_m,
                old(self)@.no_deps,
                old(self)@.include_optional,
            ));
        }
        Ok(())
    }

    /// Whether an artifact with this canonical id is waiting for its own
    /// commit somewhere on the stack.
    fn id_resolving(&self, id: &String) -> (r: bool)
        ensures
            r == spec_id_resolving(self@.jobs, id@),
    {
        let mut i: usize = 0;
        let n = self.jobs.len();
        while i < n
            invariant
                n == self@.jobs.len(),
                n == self.jobs@.len(),
                0 <= i <= n,
                forall|j: int| 0 <= j < i ==> !spec_job_installs(self@.jobs[j], id@),
            decreases n - i,
        {
            proof {
                assert(self@.jobs[i as int] == self.jobs@[i as int]@);
            }
            match &self.jobs[i] {
                Job::Install(m) => {
                    if strutil::string_eq(&m.id, id) {
                        return true;
                    }
                },
                Job::Resolve(_) => {},
            }
            i += 1;
        }
        false
    }

    /// Commit the downloaded artifact on top of the stack to the lockfile.
    pub fn on_downloaded(&mut self, lf: &mut Lockfile)
        requires
            old(self)@.jobs.len() > 0,
            old(self)@.jobs.last() is Install,
        ensures
            final(self)@.jobs == old(self)@.jobs.drop_last(),
            final(self)@.no_deps == old(self)@.no_deps,
            final(self)@.include_optional == old(self)@.include_optional,
            final(lf)@.loader == old(lf)@.loader,
            ({
                let m = match old(self)@.jobs.last() {
                    JobModel::Install(m) => m,
                    JobModel::Resolve(_) => old(lf)@.mods[0],
                };
                (spec_upsert_index(old(lf)@.mods, m) == -1 ==> final(lf)@.mods == old(
                    lf,
                )@.mods.push(m)) && (spec_upsert_index(old(lf)@.mods, m) != -1 ==> final(lf)@.mods
                    == old(lf)@.mods.update(spec_upsert_index(old(lf)@.mods, m), m))
            }),
    {
        let info = match self.jobs.pop() {
            Some(Job::Install(m)) => m,
            _ => vstd::pervasive::unreached(),
        };
        proof {
            assert(self@.jobs =~= old(self)@.jobs.drop_last());
        }
        lf.add(info);
    }
}

/// The dependencies of `info` that the operation will follow, in declared
/// order.
fn selected_deps(info: &Info, no_deps: bool, include_optional: bool) -> (r: Vec<Dependency>)
    ensures
        r@.map_values(|d: Dependency| d@) == spec_selected_deps(info@, no_deps, include_optional),
{
    let mut out: Vec<Dependency> = Vec::new();
    if no_deps {
        proof {
            assert(out@.map_values(|d: Dependency| d@) =~= Seq::<DepModel>::empty());
        }
        return out;
    }
    match &info.dependencies {
        Some(deps) => {
            let mut i: usize = 0;
            let n = deps.len();
            while i < n
                invariant
                    deps@.map_values(|x: Dependency| x@) == spec_deps(info@),
                    n == deps@.len(),
                    n == spec_deps(info@).len(),
                    0 <= i <= n,
                    out@.map_values(|d: Dependency| d@) =~= spec_selected_from(
                        spec_deps(info@).take(i as int),
                        include_optional,
                    ),
                decreases n - i,
            {
                proof {
                    assert(spec_deps(info@).take(i + 1).drop_last() =~= spec_deps(info@).take(
                        i as int,
                    ));
                    assert(spec_deps(info@)[i as int] == deps@[i as int]@);
                }
                let ghost before = out@.map_values(|d: Dependency| d@);
                if deps[i].required || include_optional {
                    out.push(deps[i].clone());
                    proof {
                        assert(out@.map_values(|d: Dependency| d@) =~= before.push(
                            spec_deps(info@)[i as int],
                        ));
                    }
                }
                i += 1;
            }
            proof {
                assert(spec_deps(info@).take(n as int) =~= spec_deps(info@));
            }
            out
        },
        None => {
            proof {
                assert(spec_deps(info@) =~= Seq::<DepModel>::empty());
                assert(out@.map_values(|d: Dependency| d@) =~= Seq::<DepModel>::empty());
            }
            out
        },
    }
}

} // verus!

verus! {

/// For an artifact `a` that declares one required dependency `d`, and a
/// descriptor `b` that the provider returns for `d`, an `add` run that
/// follows dependencies installs both: the machine fetches `a`, then `d`,
/// downloads and commits `b` first and `a` second, and the lockfile ends
/// holding its old records, then `b`, then `a`.
pub proof fn lemma_add_installs_required_dependency(
    lf: LockfileModel,
    ta: TaskModel,
    a: InfoModel,
    d: DepModel,
    b: InfoModel,
)
    requires
        ta.root,
        a.dependencies == Some(seq![d]),
        d.required,
        b.dependencies is None,
        !spec_contains_key(lf.mods, d.name),
        !spec_contains_key(lf.mods, d.id),
        forall|i: int| 0 <= i < lf.mods.len() ==> !spec_same_identity(lf.mods[i], b),
        forall|i: int| 0 <= i < lf.mods.len() ==> !spec_same_identity(lf.mods[i], a),
        !spec_same_identity(b, a),
    ensures
        ({
            let jobs0 = seq![JobModel::Resolve(ta)];
            let tb = spec_dep_task(d, ta.provider);
            let jobs1 = spec_after_descriptor(spec_settle(jobs0, lf), a, false, false);
            let jobs2 = spec_after_descriptor(spec_settle(jobs1, lf), b, false, false);
            let lf1 = LockfileModel { loader: lf.loader, mods: lf.mods.push(b) };
            let lf2 = LockfileModel { loader: lf.loader, mods: lf.mods.push(b).push(a) };
            spec_settle(jobs0, lf) == jobs0 && spec_step_of(jobs0) == StepModel::Fetch(ta)
                && jobs1 == seq![JobModel::Install(a), JobModel::Resolve(tb)] && spec_settle(
                jobs1,
                lf,
            ) == jobs1 && spec_step_of(jobs1) == StepModel::Fetch(tb) && jobs2 == seq![
                JobModel::Install(a),
                JobModel::Install(b),
            ] && spec_settle(jobs2, lf) == jobs2 && spec_step_of(jobs2) == StepModel::Download(b)
                && spec_upsert_index(lf.mods, b) == -1 && spec_settle(jobs2.drop_last(), lf1)
                == jobs2.drop_last() && spec_step_of(jobs2.drop_last()) == StepModel::Download(a)
                && spec_upsert_index(lf1.mods, a) == -1 && spec_step_of(
                spec_settle(Seq::<JobModel>::empty(), lf2),
            ) == StepModel::Done && spec_contains_key(lf2.mods, b.id) && spec_contains_key(
                lf2.mods,
                a.id,
            )
        }),
{
    let jobs0 = seq![JobModel::Resolve(ta)];
    let tb = spec_dep_task(d, ta.provider);
    assert(spec_settle(jobs0, lf) == jobs0);
    assert(spec_deps(a) == seq![d]);
    assert(seq![d].drop_last() =~= Seq::<DepModel>::empty());
    assert(spec_selected_from(Seq::<DepModel>::empty(), false) =~= Seq::<DepModel>::empty());
    assert(spec_selected_from(seq![d], false) =~= seq![d]);
    assert(spec_selected_deps(a, false, false) =~= seq![d]);
    assert(spec_rev_tasks(seq![d], ta.provider) =~= seq![JobModel::Resolve(tb)]);
    let jobs1 = spec_after_descriptor(jobs0, a, false, false);
    assert(jobs0.drop_last() =~= Seq::<JobModel>::empty());
    assert(jobs1 =~= seq![JobModel::Install(a), JobModel::Resolve(tb)]);
    assert(spec_settle(jobs1, lf) == jobs1);
    assert(spec_deps(b) =~= Seq::<DepModel>::empty());
    assert(spec_selected_deps(b, false, false) =~= Seq::<DepModel>::empty());
    assert(spec_rev_tasks(Seq::<DepModel>::empty(), tb.provider) =~= Seq::<JobModel>::empty());
    let jobs2 = spec_after_descriptor(jobs1, b, false, false);
    assert(jobs1.drop_last() =~= seq![JobModel::Install(a)]);
    assert(jobs2 =~= seq![JobModel::Install(a), JobModel::Install(b)]);
    assert(spec_settle(jobs2, lf) == jobs2);
    crate::lockfile::lemma_upsert_index(lf.mods, b);
    let lf1 = LockfileModel { loader: lf.loader, mods: lf.mods.push(b) };
    assert(jobs2.drop_last() =~= seq![JobModel::Install(a)]);
    assert(spec_settle(jobs2.drop_last(), lf1) == jobs2.drop_last());
    assert forall|i: int| 0 <= i < lf1.mods.len() implies !spec_same_identity(
        lf1.mods[i],
        a,
    ) by {
        if i < lf.mods.len() {
            assert(lf1.mods[i] == lf.mods[i]);
        } else {
            assert(lf1.mods[i] == b);
        }
    }
    crate::lockfile::lemma_upsert_index(lf1.mods, a);
    let lf2 = LockfileModel { loader: lf.loader, mods: lf.mods.push(b).push(a) };
    assert(spec_settle(Seq::<JobModel>::empty(), lf2) =~= Seq::<JobModel>::empty());
    assert(spec_matches_key(lf2.mods[lf.mods.len() as int], b.id)) by {
        assert(lf2.mods[lf.mods.len() as int] == b);
    }
    assert(spec_matches_key(lf2.mods[lf.mods.len() as int + 1], a.id)) by {
        assert(lf2.mods[lf.mods.len() as int + 1] == a);
    }
}

/// The same `add`, asked to skip dependencies, installs only the artifact
/// itself: the machine downloads and commits `a` alone, and the declared
/// dependency `d` ends up not installed.
pub proof fn lemma_add_skips_dependencies(
    lf: LockfileModel,
    ta: TaskModel,
    a: InfoModel,
    d: DepModel,
)
    requires
        ta.root,
        a.dependencies == Some(seq![d]),
        !spec_contains_key(lf.mods, d.name),
        !spec_contains_key(lf.mods, d.id),
        forall|i: int| 0 <= i < lf.mods.len() ==> !spec_same_identity(lf.mods[i], a),
        d.id != a.id,
        d.id != a.name,
    ensures
        ({
            let jobs0 = seq![JobModel::Resolve(ta)];
            let jobs1 = spec_after_descriptor(spec_settle(jobs0, lf), a, true, false);
            let lf1 = LockfileModel { loader: lf.loader, mods: lf.mods.push(a) };
            spec_settle(jobs0, lf) == jobs0 && spec_step_of(jobs0) == StepModel::Fetch(ta)
                && jobs1 == seq![JobModel::Install(a)] && spec_step_of(jobs1)
                == StepModel::Download(a) && spec_upsert_index(lf.mods, a) == -1 && spec_step_of(
                spec_settle(Seq::<JobModel>::empty(), lf1),
            ) == StepModel::Done && !spec_contains_key(lf1.mods, d.id)
        }),
{
    let jobs0 = seq![JobModel::Resolve(ta)];
    assert(spec_settle(jobs0, lf) == jobs0);
    assert(spec_selected_deps(a, true, false) =~= Seq::<DepModel>::empty());
    assert(spec_rev_tasks(Seq::<DepModel>::empty(), ta.provider) =~= Seq::<JobModel>::empty());
    let jobs1 = spec_after_descriptor(jobs0, a, true, false);
    assert(jobs0.drop_last() =~= Seq::<JobModel>::empty());
    assert(jobs1 =~= seq![JobModel::Install(a)]);
    crate::lockfile::lemma_upsert_index(lf.mods, a);
    let lf1 = LockfileModel { loader: lf.loader, mods: lf.mods.push(a) };
    assert(spec_settle(Seq::<JobModel>::empty(), lf1) =~= Seq::<JobModel>::empty());
    assert forall|i: int| 0 <= i < lf1.mods.len() implies !spec_matches_key(
        lf1.mods[i],
        d.id,
    ) by {
        if i < lf.mods.len() {
            assert(lf1.mods[i] == lf.mods[i]);
            assert(!spec_matches_key(lf.mods[i], d.id));
        } else {
            assert(lf1.mods[i] == a);
        }
    }
}

/// Once a record answering to `key` is committed, the lockfile still
/// initialized, a second `add` of the same key is refused: by `add`'s
/// contract it returns `AlreadyInstalled` exactly on such a lockfile.
pub proof fn lemma_second_add_rejected(lf: LockfileModel, a: InfoModel, key: Seq<char>)
    requires
        spec_initialized(lf),
        spec_matches_key(a, key),
    ensures
        ({
            let lf2 = LockfileModel { loader: lf.loader, mods: lf.mods.push(a) };
            spec_initialized(lf2) && spec_contains_key(lf2.mods, key)
        }),
{
    let lf2 = LockfileModel { loader: lf.loader, mods: lf.mods.push(a) };
    assert(spec_matches_key(lf2.mods[lf.mods.len() as int], key)) by {
        assert(lf2.mods[lf.mods.len() as int] == a);
    }
}

} // verus!

verus! {

/// Whether a descriptor's followed dependencies would abort the
/// operation: one of them names the descriptor itself, or an artifact
/// still waiting for its own commit on the stack.
pub open spec fn spec_cycle_hit(sel: Seq<DepModel>, jobs: Seq<JobModel>, mid: Seq<char>) -> bool {
    exists|k: int|
        0 <= k < sel.len() && ((#[trigger] sel[k]).id == mid || spec_id_resolving(jobs, sel[k].id))
}

/// One whole `add` operation, replayed at the specification level: the
/// composition of the very relations the executable machine's contracts
/// state. Each round settles the stack against the lockfile
/// (`next_step`), then either finishes, consumes the next provider
/// answer (`on_descriptor`, aborting on a cycle exactly as it does), or
/// commits the artifact on top (`on_downloaded` and the lockfile's
/// upsert). `None` when the answers run out, a cycle aborts the run, or
/// the step budget ends.
pub open spec fn spec_run(
    lf: LockfileModel,
    jobs: Seq<JobModel>,
    answers: Seq<InfoModel>,
    no_deps: bool,
    include_optional: bool,
    fuel: nat,
) -> Option<LockfileModel>
    decreases fuel,
{
    if fuel == 0 {
        None
    } else {
        let settled = spec_settle(jobs, lf);
        match spec_step_of(settled) {
            StepModel::Done => Some(lf),
            StepModel::Fetch(_) => {
                if answers.len() == 0 {
                    None
                } else {
                    let m = answers.first();
                    let sel = spec_selected_deps(m, no_deps, include_optional);
                    if spec_cycle_hit(sel, settled, m.id) {
                        None
                    } else {
                        spec_run(
                            lf,
                            spec_after_descriptor(settled, m, no_deps, include_optional),
                            answers.drop_first(),
                            no_deps,
                            include_optional,
                            (fuel - 1) as nat,
                        )
                    }
                }
            },
            StepModel::Download(m) => {
                let mods2 = if spec_upsert_index(lf.mods, m) == -1 {
                    lf.mods.push(m)
                } else {
                    lf.mods.update(spec_upsert_index(lf.mods, m), m)
                };
                spec_run(
                    LockfileModel { loader: lf.loader, mods: mods2 },
                    settled.drop_last(),
                    answers,
                    no_deps,
                    include_optional,
                    (fuel - 1) as nat,
                )
            },
        }
    }
}

/// A key answered after appending a record: by the old records, or by the
/// new one.
proof fn lemma_contains_key_push(mods: Seq<InfoModel>, x: InfoModel, key: Seq<char>)
    ensures
        spec_contains_key(mods.push(x), key) <==> (spec_contains_key(mods, key)
            || spec_matches_key(x, key)),
{
    if spec_contains_key(mods.push(x), key) {
        let i = choose|i: int|
            0 <= i < mods.push(x).len() && spec_matches_key(mods.push(x)[i], key);
        if i < mods.len() {
            assert(spec_matches_key(mods[i], key));
        }
    }
    if spec_contains_key(mods, key) {
        let i = choose|i: int| 0 <= i < mods.len() && spec_matches_key(mods[i], key);
        assert(spec_matches_key(mods.push(x)[i], key));
    }
    if spec_matches_key(x, key) {
        assert(spec_matches_key(mods.push(x)[mods.len() as int], key));
    }
}

/// Every declared required dependency is among the followed ones, and
/// with optional ones included, every declared dependency is.
pub proof fn lemma_selected_contains_required(deps: Seq<DepModel>, include_optional: bool)
    ensures
        forall|k: int|
            0 <= k < deps.len() && ((#[trigger] deps[k]).required || include_optional)
                ==> spec_selected_from(deps, include_optional).contains(deps[k]),
    decreases deps.len(),
{
    if deps.len() > 0 {
        lemma_selected_contains_required(deps.drop_last(), include_optional);
        let p = spec_selected_from(deps.drop_last(), include_optional);
        let s = spec_selected_from(deps, include_optional);
        assert forall|k: int|
            0 <= k < deps.len() && ((#[trigger] deps[k]).required || include_optional) implies s
            .contains(deps[k]) by {
            if k < deps.len() - 1 {
                assert(deps.drop_last()[k] == deps[k]);
                assert(p.contains(deps[k]));
                let ix = choose|ix: int| 0 <= ix < p.len() && p[ix] == deps[k];
                if deps.last().required || include_optional {
                    assert(s[ix] == deps[k]);
                } else {
                    assert(s[ix] == deps[k]);
                }
            } else {
                assert(deps[k] == deps.last());
                assert(deps.last().required || include_optional);
                assert(s == p.push(deps.last()));
                assert(s[p.len() as int] == deps.last());
            }
        }
    }
}

} // verus!

verus! {

/// The dependency pass of one `add`, in full generality: from a stack
/// holding the declaring artifact's pending install under the
/// resolutions of its followed dependencies — however many — with one
/// fresh leaf descriptor answered per dependency, the run commits each
/// dependency in declared order and then the artifact itself.
proof fn lemma_run_dep_tasks(
    loader: LoaderModel,
    mods: Seq<InfoModel>,
    a: InfoModel,
    prov: Seq<char>,
    sel: Seq<DepModel>,
    bs: Seq<InfoModel>,
    no_deps: bool,
    include_optional: bool,
)
    requires
        bs.len() == sel.len(),
        forall|j: int| 0 <= j < bs.len() ==> (#[trigger] bs[j]).dependencies is None,
        forall|j: int|
            0 <= j < sel.len() ==> !spec_contains_key(mods, (#[trigger] sel[j]).name)
                && !spec_contains_key(mods, sel[j].id),
        forall|i: int, j: int|
            0 <= i < bs.len() && 0 <= j < sel.len() && i < j ==> !(#[trigger] spec_matches_key(
                bs[i],
                sel[j].name,
            )) && !spec_matches_key(bs[i], sel[j].id),
        forall|j: int, m: int|
            0 <= j < bs.len() && 0 <= m < mods.len() ==> !(#[trigger] spec_same_identity(
                mods[m],
                bs[j],
            )),
        forall|i: int, j: int|
            0 <= i < j < bs.len() ==> !(#[trigger] spec_same_identity(bs[i], bs[j])),
        forall|m: int| 0 <= m < mods.len() ==> !spec_same_identity(#[trigger] mods[m], a),
        forall|i: int| 0 <= i < bs.len() ==> !spec_same_identity(#[trigger] bs[i], a),
    ensures
        spec_run(
            LockfileModel { loader, mods },
            seq![JobModel::Install(a)] + spec_rev_tasks(sel, prov),
            bs,
            no_deps,
            include_optional,
            (2 * sel.len() + 2) as nat,
        ) == Some(LockfileModel { loader, mods: mods + bs + seq![a] }),
    decreases sel.len(),
{
    let lf = LockfileModel { loader, mods };
    let jobs = seq![JobModel::Install(a)] + spec_rev_tasks(sel, prov);
    let n = sel.len() as int;
    if sel.len() == 0 {
        assert(spec_rev_tasks(sel, prov) =~= Seq::<JobModel>::empty());
        assert(jobs =~= seq![JobModel::Install(a)]);
        assert(jobs.last() == JobModel::Install(a));
        assert(!spec_skip_job(jobs.last(), lf));
        assert(spec_settle(jobs, lf) == jobs);
        assert(spec_step_of(jobs) == StepModel::Download(a));
        crate::lockfile::lemma_upsert_index(mods, a);
        assert(spec_upsert_index(mods, a) == -1);
        let lf2 = LockfileModel { loader, mods: mods.push(a) };
        assert(jobs.drop_last() =~= Seq::<JobModel>::empty());
        assert(spec_settle(Seq::<JobModel>::empty(), lf2) =~= Seq::<JobModel>::empty());
        assert(spec_step_of(Seq::<JobModel>::empty()) == StepModel::Done);
        assert(spec_run(lf2, Seq::<JobModel>::empty(), bs, no_deps, include_optional, 1 as nat)
            == Some(lf2));
        assert(spec_run(lf, jobs, bs, no_deps, include_optional, 2 as nat) == Some(lf2));
        assert(mods + bs + seq![a] =~= mods.push(a));
    } else {
        let d0 = sel.first();
        let b0 = bs.first();
        let t0 = spec_dep_task(d0, prov);
        // The top of the stack resolves the first followed dependency.
        assert(jobs.last() == spec_rev_tasks(sel, prov)[n - 1]);
        assert(spec_rev_tasks(sel, prov)[n - 1] == JobModel::Resolve(
            spec_dep_task(sel[n - 1 - (n - 1)], prov),
        ));
        assert(jobs.last() == JobModel::Resolve(t0));
        assert(!t0.root);
        assert(!spec_contains_key(mods, t0.name) && !spec_contains_key(mods, t0.id)) by {
            assert(t0.name == sel[0].name && t0.id == sel[0].id);
        }
        assert(!spec_skip_job(jobs.last(), lf));
        assert(spec_settle(jobs, lf) == jobs);
        assert(spec_step_of(jobs) == StepModel::Fetch(t0));
        // The answered descriptor is a leaf: nothing is stacked above it.
        assert(spec_deps(b0) =~= Seq::<DepModel>::empty());
        assert(spec_selected_from(Seq::<DepModel>::empty(), include_optional)
            =~= Seq::<DepModel>::empty());
        assert(spec_selected_deps(b0, no_deps, include_optional) =~= Seq::<DepModel>::empty());
        assert(!spec_cycle_hit(
            spec_selected_deps(b0, no_deps, include_optional),
            jobs,
            b0.id,
        ));
        let jobs2 = spec_after_descriptor(jobs, b0, no_deps, include_optional);
        assert(spec_rev_tasks(Seq::<DepModel>::empty(), t0.provider)
            =~= Seq::<JobModel>::empty());
        assert(jobs2 =~= jobs.drop_last().push(JobModel::Install(b0)));
        assert(spec_run(lf, jobs, bs, no_deps, include_optional, (2 * sel.len() + 2) as nat)
            == spec_run(
            lf,
            jobs2,
            bs.drop_first(),
            no_deps,
            include_optional,
            (2 * sel.len() + 1) as nat,
        ));
        // The leaf downloads and commits at once.
        assert(jobs2.last() == JobModel::Install(b0));
        assert(!spec_skip_job(jobs2.last(), lf));
        assert(spec_settle(jobs2, lf) == jobs2);
        assert(spec_step_of(jobs2) == StepModel::Download(b0));
        crate::lockfile::lemma_upsert_index(mods, b0);
        assert(spec_upsert_index(mods, b0) == -1) by {
            assert(forall|m: int|
                0 <= m < mods.len() ==> !spec_same_identity(#[trigger] mods[m], b0));
        }
        let mods2 = mods.push(b0);
        let lf2 = LockfileModel { loader, mods: mods2 };
        let jobs3 = jobs2.drop_last();
        assert(jobs3 =~= jobs.drop_last());
        assert(jobs3 =~= seq![JobModel::Install(a)] + spec_rev_tasks(sel, prov).drop_last());
        assert(spec_rev_tasks(sel, prov).drop_last() =~= spec_rev_tasks(
            sel.drop_first(),
            prov,
        )) by {
            assert forall|m: int| 0 <= m < n - 1 implies spec_rev_tasks(sel, prov).drop_last()[m]
                == spec_rev_tasks(sel.drop_first(), prov)[m] by {
                assert(sel.drop_first()[(n - 1) - 1 - m] == sel[n - 1 - m]);
            }
        }
        assert(spec_run(
            lf,
            jobs2,
            bs.drop_first(),
            no_deps,
            include_optional,
            (2 * sel.len() + 1) as nat,
        ) == spec_run(
            lf2,
            jobs3,
            bs.drop_first(),
            no_deps,
            include_optional,
            (2 * sel.len()) as nat,
        ));
        // The remaining dependencies run from the grown lockfile.
        let sel2 = sel.drop_first();
        let bs2 = bs.drop_first();
        assert(forall|j: int| 0 <= j < sel2.len() ==> sel2[j] == sel[j + 1]);
        assert(forall|j: int| 0 <= j < bs2.len() ==> bs2[j] == bs[j + 1]);
        assert forall|j: int|
            0 <= j < sel2.len() implies !spec_contains_key(mods2, (#[trigger] sel2[j]).name)
            && !spec_contains_key(mods2, sel2[j].id) by {
            lemma_contains_key_push(mods, b0, sel2[j].name);
            lemma_contains_key_push(mods, b0, sel2[j].id);
            assert(!spec_matches_key(bs[0], sel[j + 1].name));
            assert(!spec_matches_key(bs[0], sel[j + 1].id));
        }
        assert forall|j: int, m: int|
            0 <= j < bs2.len() && 0 <= m < mods2.len() implies !(#[trigger] spec_same_identity(
            mods2[m],
            bs2[j],
        )) by {
            if m < mods.len() {
                assert(mods2[m] == mods[m]);
                assert(!spec_same_identity(mods[m], bs[j + 1]));
            } else {
                assert(mods2[m] == bs[0]);
                assert(!spec_same_identity(bs[0], bs[j + 1]));
            }
        }
        assert forall|m: int| 0 <= m < mods2.len() implies !spec_same_identity(
            #[trigger] mods2[m],
            a,
        ) by {
            if m < mods.len() {
                assert(mods2[m] == mods[m]);
            } else {
                assert(mods2[m] == bs[0]);
                assert(!spec_same_identity(bs[0], a));
            }
        }
        lemma_run_dep_tasks(loader, mods2, a, prov, sel2, bs2, no_deps, include_optional);
        assert((2 * sel2.len() + 2) as nat == (2 * sel.len()) as nat);
        assert(seq![JobModel::Install(a)] + spec_rev_tasks(sel2, prov) =~= jobs3);
        assert(spec_run(
            lf2,
            jobs3,
            bs2,
            no_deps,
            include_optional,
            (2 * sel.len()) as nat,
        ) == Some(LockfileModel { loader, mods: mods2 + bs2 + seq![a] }));
        assert(mods2 + bs2 + seq![a] =~= mods + bs + seq![a]);
    }
}

} // verus!

verus! {

/// For any artifact with any declared dependency list, marked required
/// or not: the run that `add` begins — the provider answering the
/// artifact's descriptor and then one fresh leaf descriptor per followed
/// dependency — ends with every followed dependency committed to the
/// lockfile in declared order and the artifact itself committed last;
/// and every declared dependency marked required is among the followed
/// ones. `lemma_add_installs_required_dependency` walks the same run
/// step by step for one declared dependency.
pub proof fn lemma_add_run_installs_dependencies(
    lf: LockfileModel,
    ta: TaskModel,
    a: InfoModel,
    bs: Seq<InfoModel>,
    include_optional: bool,
)
    requires
        ta.root,
        bs.len() == spec_selected_deps(a, false, include_optional).len(),
        forall|j: int| 0 <= j < bs.len() ==> (#[trigger] bs[j]).dependencies is None,
        forall|j: int|
            0 <= j < bs.len() ==> !spec_contains_key(
                lf.mods,
                (#[trigger] spec_selected_deps(a, false, include_optional)[j]).name,
            ) && !spec_contains_key(
                lf.mods,
                spec_selected_deps(a, false, include_optional)[j].id,
            ) && spec_selected_deps(a, false, include_optional)[j].id != a.id,
        forall|i: int, j: int|
            0 <= i < bs.len() && 0 <= j < bs.len() && i < j ==> !(#[trigger] spec_matches_key(
                bs[i],
                spec_selected_deps(a, false, include_optional)[j].name,
            )) && !spec_matches_key(bs[i], spec_selected_deps(a, false, include_optional)[j].id),
        forall|j: int, m: int|
            0 <= j < bs.len() && 0 <= m < lf.mods.len() ==> !(#[trigger] spec_same_identity(
                lf.mods[m],
                bs[j],
            )),
        forall|i: int, j: int|
            0 <= i < j < bs.len() ==> !(#[trigger] spec_same_identity(bs[i], bs[j])),
        forall|m: int| 0 <= m < lf.mods.len() ==> !spec_same_identity(#[trigger] lf.mods[m], a),
        forall|i: int| 0 <= i < bs.len() ==> !spec_same_identity(#[trigger] bs[i], a),
    ensures
        spec_run(
            lf,
            seq![JobModel::Resolve(ta)],
            seq![a] + bs,
            false,
            include_optional,
            (2 * bs.len() + 3) as nat,
        ) == Some(LockfileModel { loader: lf.loader, mods: lf.mods + bs + seq![a] }),
        forall|k: int|
            0 <= k < spec_deps(a).len() && (#[trigger] spec_deps(a)[k]).required
                ==> spec_selected_deps(a, false, include_optional).contains(spec_deps(a)[k]),
{
    let sel = spec_selected_deps(a, false, include_optional);
    let jobs0 = seq![JobModel::Resolve(ta)];
    let answers = seq![a] + bs;
    assert(jobs0.last() == JobModel::Resolve(ta));
    assert(!spec_skip_job(jobs0.last(), lf));
    assert(spec_settle(jobs0, lf) == jobs0);
    assert(spec_step_of(jobs0) == StepModel::Fetch(ta));
    assert(answers.first() == a);
    assert(!spec_cycle_hit(sel, jobs0, a.id)) by {
        assert forall|k: int| 0 <= k < sel.len() implies !((#[trigger] sel[k]).id == a.id
            || spec_id_resolving(jobs0, sel[k].id)) by {
            assert(sel[k].id != a.id);
            assert(forall|i: int|
                0 <= i < jobs0.len() ==> !spec_job_installs(#[trigger] jobs0[i], sel[k].id));
        }
    }
    let jobs1 = spec_after_descriptor(jobs0, a, false, include_optional);
    assert(jobs0.drop_last() =~= Seq::<JobModel>::empty());
    assert(jobs1 =~= seq![JobModel::Install(a)] + spec_rev_tasks(sel, ta.provider));
    assert(answers.drop_first() =~= bs);
    assert(spec_run(lf, jobs0, answers, false, include_optional, (2 * bs.len() + 3) as nat)
        == spec_run(lf, jobs1, bs, false, include_optional, (2 * bs.len() + 2) as nat));
    lemma_run_dep_tasks(
        lf.loader,
        lf.mods,
        a,
        ta.provider,
        sel,
        bs,
        false,
        include_optional,
    );
    assert(LockfileModel { loader: lf.loader, mods: lf.mods } == lf);
    lemma_selected_contains_required(spec_deps(a), include_optional);
    assert forall|k: int|
        0 <= k < spec_deps(a).len() && (#[trigger] spec_deps(a)[k]).required implies sel.contains(
        spec_deps(a)[k],
    ) by {
        assert(spec_selected_from(spec_deps(a), include_optional).contains(spec_deps(a)[k]));
    }
}

/// The same run, asked to skip dependencies, commits the artifact alone:
/// no dependency is followed, and a declared dependency that was not
/// installed before is still not installed after.
pub proof fn lemma_add_run_skips_dependencies(
    lf: LockfileModel,
    ta: TaskModel,
    a: InfoModel,
    include_optional: bool,
)
    requires
        ta.root,
        forall|m: int| 0 <= m < lf.mods.len() ==> !spec_same_identity(#[trigger] lf.mods[m], a),
    ensures
        spec_selected_deps(a, true, include_optional) == Seq::<DepModel>::empty(),
        spec_run(
            lf,
            seq![JobModel::Resolve(ta)],
            seq![a],
            true,
            include_optional,
            3 as nat,
        ) == Some(LockfileModel { loader: lf.loader, mods: lf.mods.push(a) }),
        forall|k: int|
            0 <= k < spec_deps(a).len() && !spec_contains_key(
                lf.mods,
                (#[trigger] spec_deps(a)[k]).id,
            ) && spec_deps(a)[k].id != a.id && spec_deps(a)[k].id != a.name
                ==> !spec_contains_key(lf.mods.push(a), spec_deps(a)[k].id),
{
    let sel = spec_selected_deps(a, true, include_optional);
    assert(sel =~= Seq::<DepModel>::empty());
    let jobs0 = seq![JobModel::Resolve(ta)];
    let answers = seq![a];
    assert(jobs0.last() == JobModel::Resolve(ta));
    assert(!spec_skip_job(jobs0.last(), lf));
    assert(spec_settle(jobs0, lf) == jobs0);
    assert(spec_step_of(jobs0) == StepModel::Fetch(ta));
    assert(answers.first() == a);
    assert(!spec_cycle_hit(sel, jobs0, a.id));
    let jobs1 = spec_after_descriptor(jobs0, a, true, include_optional);
    assert(jobs0.drop_last() =~= Seq::<JobModel>::empty());
    assert(jobs1 =~= seq![JobModel::Install(a)] + spec_rev_tasks(sel, ta.provider));
    assert(answers.drop_first() =~= Seq::<InfoModel>::empty());
    assert(spec_run(lf, jobs0, answers, true, include_optional, 3 as nat) == spec_run(
        lf,
        jobs1,
        Seq::<InfoModel>::empty(),
        true,
        include_optional,
        2 as nat,
    ));
    lemma_run_dep_tasks(
        lf.loader,
        lf.mods,
        a,
        ta.provider,
        sel,
        Seq::<InfoModel>::empty(),
        true,
        include_optional,
    );
    assert(LockfileModel { loader: lf.loader, mods: lf.mods } == lf);
    assert(lf.mods + Seq::<InfoModel>::empty() + seq![a] =~= lf.mods.push(a));
    assert forall|k: int|
        0 <= k < spec_deps(a).len() && !spec_contains_key(
            lf.mods,
            (#[trigger] spec_deps(a)[k]).id,
        ) && spec_deps(a)[k].id != a.id && spec_deps(a)[k].id != a.name implies !spec_contains_key(
        lf.mods.push(a),
        spec_deps(a)[k].id,
    ) by {
        lemma_contains_key_push(lf.mods, a, spec_deps(a)[k].id);
        assert(!spec_matches_key(a, spec_deps(a)[k].id));
    }
}

} // verus!
