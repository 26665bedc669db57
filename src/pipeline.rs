use std::rc::Rc;
use vstd::prelude::*;
use vstd::string::StringExecFns;
use crate::error::PutkiError;
use crate::ptr::{Ptr, PtrState};
use crate::source::{InkiResolver, ObjectLoader, ParseFromKV, Tracker, is_mismatch_report};

verus! {

/// Describes a builder, for diagnostics.
pub struct BuilderDesc {
    pub description: String,
}

/// The inputs a build reads besides its object; none are tracked yet.
pub struct InputDeps {}

/// A dependency of a build: the target's path, its expected kind, and whether
/// a builder made it (such targets are never queued).
pub struct DepRef {
    path: String,
    kind: String,
    temp: bool,
}

/// The paths of `v`, as a sequence.
pub open spec fn paths_of(v: Seq<String>) -> Seq<Seq<char>> {
    v.map_values(|s: String| s@)
}

/// Whether `v` holds `s`.
fn contains_str(v: &Vec<String>, s: &str) -> (r: bool)
    ensures
        r == paths_of(v@).contains(s@),
{
    let target = String::from_str(s);
    let mut i: usize = 0;
    while i < v.len()
        invariant
            i <= v.len(),
            target@ == s@,
            forall|j: int| 0 <= j < i ==> v@[j]@ != s@,
        decreases v.len() - i,
    {
        if v[i] == target {
            assert(paths_of(v@)[i as int] == s@);
            return true;
        }
        i += 1;
    }
    assert(!paths_of(v@).contains(s@)) by {
        if paths_of(v@).contains(s@) {
            let k = choose|k: int| 0 <= k < paths_of(v@).len() && paths_of(v@)[k] == s@;
            assert(v@[k]@ == s@);
        }
    }
    false
}

/// One record per built path: what the build found, what it reached and what
/// it produced.
pub struct BuildRecord<E> {
    path: String,
    built_obj: Option<E>,
    visited: Vec<String>,
    deps: Vec<DepRef>,
    diagnostics: Vec<PutkiError>,
    error: Option<PutkiError>,
    success: bool,
}

impl<E> BuildRecord<E> {
    pub closed spec fn spec_path(&self) -> Seq<char> {
        self.path@
    }

    pub closed spec fn spec_success(&self) -> bool {
        self.success
    }

    pub closed spec fn spec_error(&self) -> Option<PutkiError> {
        self.error
    }

    pub closed spec fn spec_built(&self) -> Option<E> {
        self.built_obj
    }

    /// The paths of the dependencies, in the order they were added.
    pub closed spec fn dep_paths(&self) -> Seq<Seq<char>> {
        self.deps@.map_values(|d: DepRef| d.path@)
    }

    /// The paths of the dependencies that the pipeline builds: all but the
    /// objects that a builder made.
    pub closed spec fn queued_dep_paths(&self) -> Set<Seq<char>> {
        Set::new(|p: Seq<char>| exists|i: int| 0 <= i < self.deps@.len() && !self.deps@[i].temp && self.deps@[i].path@ == p)
    }

    /// Whether this is an empty, successful record for `path`.
    pub open spec fn is_fresh(&self, path: Seq<char>) -> bool {
        &&& self.spec_path() == path
        &&& self.spec_success()
        &&& self.spec_error() is None
        &&& self.spec_built() is None
        &&& self.dep_paths().len() == 0
        &&& self.reports().len() == 0
        &&& self.followed() == Set::<Seq<char>>::empty()
    }

    /// An empty, successful record for `path`.
    fn new(path: String) -> (r: Self)
        ensures
            r.is_fresh(path@),
    {
        let r = BuildRecord {
            path,
            built_obj: None,
            visited: Vec::new(),
            deps: Vec::new(),
            diagnostics: Vec::new(),
            error: None,
            success: true,
        };
        assert(paths_of(r.visited@).to_set() =~= Set::<Seq<char>>::empty());
        r
    }

    pub fn is_ok(&self) -> (r: bool)
        ensures
            r == self.spec_success(),
    {
        self.success
    }

    pub fn get_path(&self) -> (r: &str)
        ensures
            r@ == self.spec_path(),
    {
        self.path.as_str()
    }
}

impl<E> BuildRecord<E> {
    /// The record published for `path`: the visits and dependencies that
    /// `br` gathered, the object built, success exactly when the build
    /// returned `Ok`, its error otherwise, and the diagnostics with the
    /// resolver's `diag` first.
    pub fn seal(
        path: String,
        built_obj: Option<E>,
        br: BuildRecord<E>,
        outcome: Result<(), PutkiError>,
        diag: Option<PutkiError>,
    ) -> (r: Self)
        ensures
            r.spec_path() == path@,
            r.spec_built() == built_obj,
            r.followed() == br.followed(),
            r.dep_paths() == br.dep_paths(),
            r.queued_dep_paths() == br.queued_dep_paths(),
            r.spec_success() == (outcome is Ok),
            r.spec_error() == match outcome {
                Ok(_) => None,
                Err(e) => Some(e),
            },
            r.reports() == match diag {
                Some(e) => seq![e],
                None => Seq::empty(),
            } + br.reports(),
    {
        let BuildRecord { path: _, built_obj: _, visited, deps, mut diagnostics, error: _, success: _ } = br;
        let mut reports: Vec<PutkiError> = Vec::new();
        match diag {
            Some(e) => reports.push(e),
            None => {},
        }
        reports.append(&mut diagnostics);
        let r = match outcome {
            Ok(()) => BuildRecord { path, built_obj, visited, deps, diagnostics: reports, error: None, success: true },
            Err(e) => BuildRecord { path, built_obj, visited, deps, diagnostics: reports, error: Some(e), success: false },
        };
        assert(r.reports() =~= match diag {
            Some(e) => seq![e],
            None => Seq::empty(),
        } + br.reports());
        r
    }
}

/// `after` keeps the path of `before` and extends its diagnostics.
pub open spec fn record_extends<E>(before: BuildRecord<E>, after: BuildRecord<E>) -> bool {
    &&& after.spec_path() == before.spec_path()
    &&& after.reports().len() >= before.reports().len()
    &&& after.reports().subrange(0, before.reports().len() as int) == before.reports()
}

impl<E> BuildRecord<E> {
    /// The failure that ended the build, if any.
    pub fn get_error(&self) -> (r: &Option<PutkiError>)
        ensures
            *r == self.spec_error(),
    {
        &self.error
    }

    /// The object the build produced; absent where the source could not be read.
    pub fn get_built_obj(&self) -> (r: &Option<E>)
        ensures
            *r == self.spec_built(),
    {
        &self.built_obj
    }

    /// The diagnostics raised during the build, in order.
    pub fn get_diagnostics(&self) -> (r: &Vec<PutkiError>)
        ensures
            r@ == self.reports(),
    {
        &self.diagnostics
    }

    /// The paths the build visited, each once.
    pub fn get_visited(&self) -> (r: &Vec<String>)
        ensures
            paths_of(r@).to_set() == self.followed(),
    {
        &self.visited
    }

    /// The paths of the dependencies, in the order they were added.
    pub fn get_dep_paths(&self) -> (r: Vec<String>)
        ensures
            paths_of(r@) == self.dep_paths(),
    {
        let mut r: Vec<String> = Vec::new();
        let mut i: usize = 0;
        while i < self.deps.len()
            invariant
                i <= self.deps.len(),
                paths_of(r@) == self.dep_paths().take(i as int),
            decreases self.deps.len() - i,
        {
            let ghost before = r@;
            r.push(self.deps[i].path.clone());
            assert(paths_of(r@) =~= paths_of(before).push(self.deps@[i as int].path@));
            assert(paths_of(r@) =~= self.dep_paths().take(i + 1));
            i += 1;
        }
        assert(self.dep_paths().take(i as int) =~= self.dep_paths());
        r
    }

    /// Whether a dependency is recorded under `path`.
    pub fn has_dep(&self, path: &str) -> (r: bool)
        ensures
            r == self.dep_paths().contains(path@),
    {
        let target = String::from_str(path);
        let mut i: usize = 0;
        while i < self.deps.len()
            invariant
                i <= self.deps.len(),
                target@ == path@,
                forall|j: int| 0 <= j < i ==> self.deps@[j].path@ != path@,
            decreases self.deps.len() - i,
        {
            if self.deps[i].path == target {
                assert(self.dep_paths()[i as int] == path@);
                return true;
            }
            i += 1;
        }
        assert(!self.dep_paths().contains(path@)) by {
            if self.dep_paths().contains(path@) {
                let k = choose|k: int| 0 <= k < self.dep_paths().len() && self.dep_paths()[k] == path@;
                assert(self.deps@[k].path@ == path@);
            }
        }
        false
    }

    /// Records a dependency on `path`, once per path: a path already recorded
    /// keeps its first entry.
    fn add_dep(&mut self, path: &str, kind: &str, temp: bool)
        ensures
            record_extends(*old(self), *final(self)),
            final(self).followed() == old(self).followed(),
            final(self).spec_success() == old(self).spec_success(),
            final(self).spec_error() == old(self).spec_error(),
            final(self).spec_built() == old(self).spec_built(),
            final(self).dep_paths() == if old(self).dep_paths().contains(path@) {
                old(self).dep_paths()
            } else {
                old(self).dep_paths().push(path@)
            },
            final(self).queued_dep_paths() == if old(self).dep_paths().contains(path@) || temp {
                old(self).queued_dep_paths()
            } else {
                old(self).queued_dep_paths().insert(path@)
            },
    {
        if !self.has_dep(path) {
            self.deps.push(DepRef { path: String::from_str(path), kind: String::from_str(kind), temp });
            assert(self.dep_paths() =~= old(self).dep_paths().push(path@));
            assert(self.reports().subrange(0, old(self).reports().len() as int) =~= old(self).reports());
            let ghost n = old(self).deps@.len();
            assert(self.deps@[n as int].path@ == path@);
            assert forall|p: Seq<char>| self.queued_dep_paths().contains(p) <==> (#[trigger] old(self).queued_dep_paths().contains(p) || (!temp && p == path@)) by {
                if self.queued_dep_paths().contains(p) {
                    let k = choose|k: int| 0 <= k < self.deps@.len() && !self.deps@[k].temp && self.deps@[k].path@ == p;
                    if k < n {
                        assert(old(self).deps@[k] == self.deps@[k]);
                    }
                }
                if old(self).queued_dep_paths().contains(p) {
                    let k = choose|k: int| 0 <= k < old(self).deps@.len() && !old(self).deps@[k].temp && old(self).deps@[k].path@ == p;
                    assert(self.deps@[k] == old(self).deps@[k]);
                }
            }
            assert(self.queued_dep_paths() =~= if temp { old(self).queued_dep_paths() } else { old(self).queued_dep_paths().insert(path@) });
        } else {
            assert(self.reports().subrange(0, old(self).reports().len() as int) =~= old(self).reports());
        }
    }

    /// Wraps `obj`, made by a builder, in a pointer under the temporary path
    /// `"<path>!<tag>"`. The pointer is already resolved; the pipeline never
    /// queues it.
    pub fn create_object<T: ParseFromKV>(&mut self, tag: &str, obj: T) -> (r: Ptr<T>)
        ensures
            *final(self) == *old(self),
            r.spec_path() == old(self).spec_path() + seq!['!'] + tag@,
            r.spec_kind() == tag@,
            r.state() == PtrState::TempObject(Rc::new(obj)),
    {
        let mut tmp_path = self.path.clone();
        tmp_path.append("!");
        tmp_path.append(tag);
        proof {
            reveal_strlit("!");
        }
        Ptr::new_temp_object(tmp_path.as_str(), tag, Rc::new(obj))
    }
}

impl<E> BuildRecord<E> {
    /// The paths the build visited.
    pub closed spec fn followed(&self) -> Set<Seq<char>> {
        paths_of(self.visited@).to_set()
    }

    /// The diagnostics raised during the build, in order.
    pub closed spec fn reports(&self) -> Seq<PutkiError> {
        self.diagnostics@
    }

    /// Notes that the build visited `path`.
    pub fn visit(&mut self, path: &str)
        ensures
            final(self).followed() == old(self).followed().insert(path@),
            final(self).reports() == old(self).reports(),
            final(self).spec_path() == old(self).spec_path(),
            final(self).dep_paths() == old(self).dep_paths(),
            final(self).queued_dep_paths() == old(self).queued_dep_paths(),
            final(self).spec_success() == old(self).spec_success(),
            final(self).spec_error() == old(self).spec_error(),
            final(self).spec_built() == old(self).spec_built(),
    {
        let ghost before = paths_of(self.visited@);
        if !contains_str(&self.visited, path) {
            self.visited.push(String::from_str(path));
            assert(paths_of(self.visited@) =~= paths_of(old(self).visited@).push(path@));
        }
        assert forall|p: Seq<char>| #[trigger] paths_of(self.visited@).contains(p) <==> before.contains(p) || p == path@ by {
            if paths_of(self.visited@) != before {
                assert(paths_of(self.visited@) == before.push(path@));
                if p == path@ {
                    assert(paths_of(self.visited@)[before.len() as int] == p);
                }
                if before.contains(p) {
                    let k = choose|k: int| 0 <= k < before.len() && before[k] == p;
                    assert(paths_of(self.visited@)[k] == p);
                }
            }
        }
        assert(paths_of(self.visited@).to_set() =~= before.to_set().insert(path@));
    }

    /// Adds `e` to the build's diagnostics.
    pub fn add_diagnostic(&mut self, e: PutkiError)
        ensures
            final(self).reports() == old(self).reports().push(e),
            final(self).followed() == old(self).followed(),
            final(self).spec_path() == old(self).spec_path(),
            final(self).dep_paths() == old(self).dep_paths(),
            final(self).queued_dep_paths() == old(self).queued_dep_paths(),
            final(self).spec_success() == old(self).spec_success(),
            final(self).spec_error() == old(self).spec_error(),
            final(self).spec_built() == old(self).spec_built(),
    {
        self.diagnostics.push(e);
    }
}

/// The record is the tracker of its build: the resolver's notifications
/// land in it.
impl<E> Tracker for BuildRecord<E> {
    open spec fn spec_followed(&self) -> Set<Seq<char>> {
        self.followed()
    }

    open spec fn spec_reports(&self) -> Seq<PutkiError> {
        self.reports()
    }

    fn follow(&mut self, path: &str) {
        self.visit(path);
    }

    fn report(&mut self, e: PutkiError) {
        self.add_diagnostic(e);
    }
}

/// The runtime type token of an entity: the tag of the kind it holds.
/// Builders are dispatched on it.
pub trait TypeDescriptor {
    /// The kind of this value. An impl proved with Verus defines it; the
    /// default leaves it open.
    closed spec fn spec_type_tag(&self) -> Seq<char> {
        arbitrary()
    }

    fn type_tag(&self) -> (r: String)
        ensures
            r@ == self.spec_type_tag(),
    ;
}

/// An entity whose sub-objects are built too.
pub trait BuildFields: Sized {
    /// What building the fields does to the value and the record, and what it
    /// returns. An impl proved with Verus defines it; the default leaves it
    /// open.
    closed spec fn build_fields_post(
        &self,
        br: BuildRecord<Self>,
        after: Self,
        br_after: BuildRecord<Self>,
        r: Result<(), PutkiError>,
    ) -> bool {
        arbitrary()
    }

    fn build_fields<L: ObjectLoader, B: Builder<Self>>(&mut self, pl: &Pipeline<Self, L, B>, br: &mut BuildRecord<Self>) -> (r: Result<(), PutkiError>)
        ensures
            old(self).build_fields_post(*old(br), *final(self), *final(br), r),
    ;
}

/// A transformation stage for the entities of one kind.
pub trait Builder<T>: Sized {
    /// The kind of entity this builder accepts.
    /// The kind named by `object_type`. An impl proved with Verus defines
    /// it; the default leaves it open.
    closed spec fn spec_object_type(&self) -> Seq<char> {
        arbitrary()
    }

    fn object_type(&self) -> (r: String)
        ensures
            r@ == self.spec_object_type(),
    ;

    /// What the builder does to the record and the input, and what it
    /// returns. An impl proved with Verus defines it; the default leaves it
    /// open.
    closed spec fn build_post(
        &self,
        br: BuildRecord<T>,
        input: T,
        br_after: BuildRecord<T>,
        input_after: T,
        r: Result<(), PutkiError>,
    ) -> bool {
        arbitrary()
    }

    fn build(&self, br: &mut BuildRecord<T>, input: &mut T) -> (r: Result<(), PutkiError>)
        ensures
            self.build_post(*old(br), *old(input), *final(br), *final(input), r),
    ;

    fn desc(&self) -> BuilderDesc;
}

/// An entity the pipeline can build.
pub trait BuildCandidate: BuildFields + ParseFromKV + TypeDescriptor + Clone {
    /// What building the entity does to it and to the record, and what it
    /// returns. An impl proved with Verus defines it; the default leaves it
    /// open.
    closed spec fn candidate_build_post(
        &self,
        br: BuildRecord<Self>,
        after: Self,
        br_after: BuildRecord<Self>,
        r: Result<(), PutkiError>,
    ) -> bool {
        arbitrary()
    }

    /// Builds the entity, most often through `Pipeline::build`.
    fn build<L: ObjectLoader, B: Builder<Self>>(&mut self, p: &Pipeline<Self, L, B>, br: &mut BuildRecord<Self>) -> (r: Result<(), PutkiError>)
        ensures
            old(self).candidate_build_post(*old(br), *final(self), *final(br), r),
    ;

    /// What naming the dependencies does to the record and the pipeline. An
    /// impl proved with Verus defines it; the default leaves it open.
    closed spec fn scan_deps_post<L: ObjectLoader, B: Builder<Self>>(
        &self,
        br: BuildRecord<Self>,
        br_after: BuildRecord<Self>,
        pl: Pipeline<Self, L, B>,
        pl_after: Pipeline<Self, L, B>,
    ) -> bool {
        arbitrary()
    }

    /// Names the entity's outbound pointers, through
    /// `Pipeline::add_output_dependency`.
    /// It may only request builds: the pipeline must grow as `grows_to` says.
    fn scan_deps<L: ObjectLoader, B: Builder<Self>>(&self, p: &mut Pipeline<Self, L, B>, br: &mut BuildRecord<Self>)
        requires
            old(p).wf(),
        ensures
            old(p).grows_to(*final(p)),
            self.scan_deps_post(*old(br), *final(br), *old(p), *final(p)),
    ;
}

/// A published build output.
pub trait BuildResultObj {}

/// Marks a pipeline handle that may be shared for reading.
pub trait Forcate {}

/// The loader and the builders of a pipeline, in the order they run, each
/// stored with the kind it accepts.
pub struct PipelineDesc<L, B> {
    source: InkiResolver<L>,
    builders: Vec<B>,
    kinds: Vec<String>,
}

impl<L: ObjectLoader, B> PipelineDesc<L, B> {
    pub closed spec fn loader(&self) -> L {
        self.source.loader()
    }

    pub closed spec fn builders(&self) -> Seq<B> {
        self.builders@
    }

    /// The kind each builder accepts, by registration order.
    pub closed spec fn accepted_kinds(&self) -> Seq<Seq<char>> {
        paths_of(self.kinds@)
    }

    pub open spec fn wf(&self) -> bool {
        self.builders().len() == self.accepted_kinds().len()
    }

    pub fn new(source: L) -> (r: Self)
        ensures
            r.wf(),
            r.loader() == source,
            r.builders().len() == 0,
    {
        let r = PipelineDesc { source: InkiResolver::new(source), builders: Vec::new(), kinds: Vec::new() };
        assert(r.accepted_kinds() =~= Seq::<Seq<char>>::empty());
        r
    }
}

impl<L: ObjectLoader, B> PipelineDesc<L, B> {
    /// Registers `bld` after the builders already there, with the kind it
    /// reports accepting.
    pub fn add_builder<T>(self, bld: B) -> (r: Self)
        where
            B: Builder<T>,
        requires
            self.wf(),
        ensures
            r.wf(),
            r.loader() == self.loader(),
            r.builders() == self.builders().push(bld),
            r.accepted_kinds() == self.accepted_kinds().push(bld.spec_object_type()),
    {
        let PipelineDesc { source, mut builders, mut kinds } = self;
        let ghost old_kinds = paths_of(kinds@);
        kinds.push(bld.object_type());
        builders.push(bld);
        let r = PipelineDesc { source, builders, kinds };
        assert(r.accepted_kinds() =~= old_kinds.push(bld.spec_object_type()));
        r
    }
}

/// The first `n` builders of `bs` at the indices `idx` ran in that order,
/// the `j`-th taking `(brs[j], os[j])` to `(brs[j + 1], os[j + 1])`; all but
/// the last of them returned `Ok`, and the last returned `r`. The chain stops
/// early only on an error.
pub open spec fn ran_through<T, B: Builder<T>>(
    bs: Seq<B>,
    idx: Seq<usize>,
    brs: Seq<BuildRecord<T>>,
    os: Seq<T>,
    n: int,
    r: Result<(), PutkiError>,
) -> bool {
    &&& 0 <= n <= idx.len()
    &&& brs.len() == n + 1
    &&& os.len() == n + 1
    &&& forall|j: int| 0 <= j < n ==> #[trigger] idx[j] < bs.len()
    &&& forall|j: int| 0 <= j < n - 1 ==> #[trigger] bs[idx[j] as int].build_post(brs[j], os[j], brs[j + 1], os[j + 1], Ok(()))
    &&& n > 0 ==> bs[idx[n - 1] as int].build_post(brs[n - 1], os[n - 1], brs[n], os[n], r)
    &&& r is Ok ==> n == idx.len()
    &&& r is Err ==> n > 0
}

/// The builders of `bs` at the indices `idx` ran in that order on
/// `(br0, o0)` and left `(br1, o1)`: each on what the one before left, until
/// the first that returned an error, which is `r`; `r` is `Ok` when none did.
pub open spec fn builders_ran<T, B: Builder<T>>(
    bs: Seq<B>,
    idx: Seq<usize>,
    br0: BuildRecord<T>,
    o0: T,
    br1: BuildRecord<T>,
    o1: T,
    r: Result<(), PutkiError>,
) -> bool {
    exists|brs: Seq<BuildRecord<T>>, os: Seq<T>, n: int|
        #[trigger] ran_through(bs, idx, brs, os, n, r) && brs[0] == br0 && os[0] == o0 && brs[n] == br1 && os[n] == o1
}

/// The indices, in order, of the entries of `kinds` equal to `kind`.
pub open spec fn matching_builders(kinds: Seq<Seq<char>>, kind: Seq<char>) -> Seq<usize>
    decreases kinds.len(),
{
    if kinds.len() == 0 {
        Seq::empty()
    } else {
        let rest = matching_builders(kinds.drop_last(), kind);
        if kinds.last() == kind {
            rest.push((kinds.len() - 1) as usize)
        } else {
            rest
        }
    }
}

/// A queued build: the path and the kind it is built as.
struct BuildRequest {
    path: String,
    kind: String,
}

/// The work-queue driver: builds each requested path once, records the
/// outcome, and queues the dependencies each build names.
pub struct Pipeline<E, L, B> {
    desc: PipelineDesc<L, B>,
    to_build: Vec<BuildRequest>,
    inserted: Vec<String>,
    built: Vec<BuildRecord<E>>,
    building: Option<String>,
}

impl<E, L: ObjectLoader, B> Pipeline<E, L, B> {
    pub closed spec fn loader(&self) -> L {
        self.desc.loader()
    }

    pub closed spec fn builders(&self) -> Seq<B> {
        self.desc.builders()
    }

    /// The kind each builder accepts, by registration order.
    pub closed spec fn accepted_kinds(&self) -> Seq<Seq<char>> {
        self.desc.accepted_kinds()
    }

    /// The path whose build is under way, taken off the queue and not yet
    /// published.
    pub closed spec fn building(&self) -> Option<Seq<char>> {
        match self.building {
            Some(p) => Some(p@),
            None => None,
        }
    }

    pub open spec fn building_set(&self) -> Set<Seq<char>> {
        match self.building() {
            Some(p) => Set::empty().insert(p),
            None => Set::empty(),
        }
    }

    /// Every path ever queued, in the order of first request.
    pub closed spec fn inserted_paths(&self) -> Seq<Seq<char>> {
        paths_of(self.inserted@)
    }

    /// The paths waiting to be built, oldest first.
    pub closed spec fn queue(&self) -> Seq<Seq<char>> {
        self.to_build@.map_values(|r: BuildRequest| r.path@)
    }

    /// The kinds the waiting paths are to be built as.
    pub closed spec fn queue_kinds(&self) -> Seq<Seq<char>> {
        self.to_build@.map_values(|r: BuildRequest| r.kind@)
    }

    /// The published records, in the order their builds finished.
    pub closed spec fn built_records(&self) -> Seq<BuildRecord<E>> {
        self.built@
    }

    pub open spec fn built_paths(&self) -> Seq<Seq<char>> {
        self.built_records().map_values(|b: BuildRecord<E>| b.spec_path())
    }

    /// Every queued dependency of a published record has been requested.
    pub open spec fn deps_closed(&self) -> bool {
        forall|i: int, p: Seq<char>|
            0 <= i < self.built_records().len() && #[trigger] self.built_records()[i].queued_dep_paths().contains(p)
                ==> self.inserted_paths().contains(p)
    }

    /// The pipeline's invariant, with `pending` the paths taken off the queue
    /// whose records are not published yet.
    pub open spec fn inv(&self, pending: Set<Seq<char>>) -> bool {
        &&& self.builders().len() == self.accepted_kinds().len()
        &&& self.inserted_paths().no_duplicates()
        &&& self.queue().no_duplicates()
        &&& self.built_paths().no_duplicates()
        &&& self.queue().len() == self.queue_kinds().len()
        &&& forall|p: Seq<char>| #[trigger] self.queue().contains(p) ==> !self.built_paths().contains(p)
        &&& forall|p: Seq<char>| #[trigger] pending.contains(p) ==> !self.queue().contains(p) && !self.built_paths().contains(p)
        &&& forall|p: Seq<char>|
            #[trigger] self.inserted_paths().contains(p) <==> self.queue().contains(p) || self.built_paths().contains(p)
                || pending.contains(p)
        &&& self.deps_closed()
    }

    /// Well-formed: every requested path is queued, built, or under way,
    /// exactly one of these, and each at most once.
    pub open spec fn wf(&self) -> bool {
        self.inv(self.building_set())
    }

    /// What requests made during a build may do: the pipeline stays
    /// well-formed, nothing is built or taken off the queue, and the queue
    /// grows at its tail by exactly the newly requested paths.
    pub open spec fn grows_to(&self, after: Self) -> bool {
        &&& after.wf()
        &&& after.building() == self.building()
        &&& after.built_records() == self.built_records()
        &&& after.loader() == self.loader()
        &&& after.builders() == self.builders()
        &&& after.accepted_kinds() == self.accepted_kinds()
        &&& prefix_of(self.inserted_paths(), after.inserted_paths())
        &&& prefix_of(self.queue(), after.queue())
        &&& after.inserted_paths().len() - self.inserted_paths().len() == after.queue().len() - self.queue().len()
    }
}

/// Facts on appending to a sequence of paths.
proof fn lemma_push_paths(s: Seq<Seq<char>>, x: Seq<char>)
    ensures
        forall|p: Seq<char>| #[trigger] s.push(x).contains(p) <==> s.contains(p) || p == x,
        s.no_duplicates() && !s.contains(x) ==> s.push(x).no_duplicates(),
{
    assert forall|p: Seq<char>| #[trigger] s.push(x).contains(p) <==> s.contains(p) || p == x by {
        if s.push(x).contains(p) {
            let k = choose|k: int| 0 <= k < s.push(x).len() && s.push(x)[k] == p;
            if k < s.len() {
                assert(s[k] == p);
            }
        }
        if s.contains(p) {
            let k = choose|k: int| 0 <= k < s.len() && s[k] == p;
            assert(s.push(x)[k] == p);
        }
        if p == x {
            assert(s.push(x)[s.len() as int] == p);
        }
    }
    if s.no_duplicates() && !s.contains(x) {
        assert forall|i: int, j: int| 0 <= i < s.push(x).len() && 0 <= j < s.push(x).len() && i != j
            implies s.push(x)[i] != s.push(x)[j] by {
            if i < s.len() && j == s.len() {
                assert(s.contains(s[i]));
            }
            if j < s.len() && i == s.len() {
                assert(s.contains(s[j]));
            }
        }
    }
}

/// Facts on taking the first path off a sequence without duplicates.
proof fn lemma_drop_first_paths(s: Seq<Seq<char>>)
    requires
        s.len() > 0,
        s.no_duplicates(),
    ensures
        s.drop_first().no_duplicates(),
        forall|p: Seq<char>| #[trigger] s.contains(p) <==> s.drop_first().contains(p) || p == s[0],
        !s.drop_first().contains(s[0]),
{
    let t = s.drop_first();
    assert forall|p: Seq<char>| #[trigger] s.contains(p) <==> t.contains(p) || p == s[0] by {
        if s.contains(p) {
            let k = choose|k: int| 0 <= k < s.len() && s[k] == p;
            if k > 0 {
                assert(t[k - 1] == p);
            }
        }
        if t.contains(p) {
            let k = choose|k: int| 0 <= k < t.len() && t[k] == p;
            assert(s[k + 1] == p);
        }
        if p == s[0] {
            assert(s[0] == p);
        }
    }
    if t.contains(s[0]) {
        let k = choose|k: int| 0 <= k < t.len() && t[k] == s[0];
        assert(s[k + 1] == s[0]);
    }
}

impl<E, L: ObjectLoader, B> Pipeline<E, L, B> {
    /// What a request for `path` as `kind` does: the first request for a path
    /// queues it at the tail and notes it as inserted; a later one changes
    /// nothing. `r` tells which happened.
    pub open spec fn enqueued(&self, after: Self, path: Seq<char>, kind: Seq<char>, r: bool) -> bool {
        &&& r == !self.inserted_paths().contains(path)
        &&& after.loader() == self.loader()
        &&& after.builders() == self.builders()
        &&& after.accepted_kinds() == self.accepted_kinds()
        &&& after.built_records() == self.built_records()
        &&& after.building() == self.building()
        &&& if r {
            &&& after.inserted_paths() == self.inserted_paths().push(path)
            &&& after.queue() == self.queue().push(path)
            &&& after.queue_kinds() == self.queue_kinds().push(kind)
        } else {
            &&& after.inserted_paths() == self.inserted_paths()
            &&& after.queue() == self.queue()
            &&& after.queue_kinds() == self.queue_kinds()
        }
    }

    pub fn new(desc: PipelineDesc<L, B>) -> (r: Self)
        requires
            desc.wf(),
        ensures
            r.wf(),
            r.loader() == desc.loader(),
            r.builders() == desc.builders(),
            r.accepted_kinds() == desc.accepted_kinds(),
            r.inserted_paths().len() == 0,
            r.queue().len() == 0,
            r.built_records().len() == 0,
            r.building() is None,
    {
        let r = Pipeline { desc, to_build: Vec::new(), inserted: Vec::new(), built: Vec::new(), building: None };
        assert(r.inserted_paths() =~= Seq::<Seq<char>>::empty());
        assert(r.queue() =~= Seq::<Seq<char>>::empty());
        assert(r.queue_kinds() =~= Seq::<Seq<char>>::empty());
        assert(r.built_paths() =~= Seq::<Seq<char>>::empty());
        r
    }

    fn enqueue(&mut self, path: &str, kind: &str, Ghost(pending): Ghost<Set<Seq<char>>>) -> (r: bool)
        requires
            old(self).inv(pending),
        ensures
            final(self).inv(pending),
            old(self).enqueued(*final(self), path@, kind@, r),
    {
        if contains_str(&self.inserted, path) {
            return false;
        }
        let ghost old_inserted = self.inserted_paths();
        let ghost old_queue = self.queue();
        let ghost old_kinds = self.queue_kinds();
        self.inserted.push(String::from_str(path));
        self.to_build.push(BuildRequest { path: String::from_str(path), kind: String::from_str(kind) });
        assert(self.inserted_paths() =~= old_inserted.push(path@));
        assert(self.queue() =~= old_queue.push(path@));
        assert(self.queue_kinds() =~= old_kinds.push(kind@));
        proof {
            lemma_push_paths(old_inserted, path@);
            lemma_push_paths(old_queue, path@);
            assert(!old_queue.contains(path@));
            assert(self.built_paths() == old(self).built_paths());
        }
        true
    }

    /// Queues `path` to be built as `kind`, unless it was requested before.
    /// Returns whether this was the first request.
    pub fn insert_path_to_build(&mut self, path: &str, kind: &str) -> (r: bool)
        requires
            old(self).wf(),
        ensures
            final(self).wf(),
            old(self).enqueued(*final(self), path@, kind@, r),
    {
        self.enqueue(path, kind, Ghost(self.building_set()))
    }

    /// Requests a build of `path` as an entity of kind `kind`.
    pub fn build_as(&mut self, path: &str, kind: &str)
        requires
            old(self).wf(),
        ensures
            final(self).wf(),
            exists|r: bool| old(self).enqueued(*final(self), path@, kind@, r),
    {
        self.insert_path_to_build(path, kind);
    }

    /// Requests a build of the target of `ptr`. An object that a builder made
    /// is a final artifact and is never queued.
    pub fn build_ptr<T: ParseFromKV>(&mut self, ptr: &Ptr<T>)
        requires
            old(self).wf(),
        ensures
            final(self).wf(),
            ptr.state() is TempObject ==> *final(self) == *old(self),
            !(ptr.state() is TempObject) ==> exists|r: bool| old(self).enqueued(*final(self), ptr.spec_path(), ptr.spec_kind(), r),
    {
        if !ptr.is_temp_object() {
            let path = ptr.get_target_path();
            let kind = ptr.get_kind();
            match path {
                Some(p) => {
                    self.insert_path_to_build(p.as_str(), kind.as_str());
                },
                None => {},
            }
        }
    }

    /// Records `ptr` under its path as a dependency of the build in `br`,
    /// and requests its build, unless a builder made the target.
    pub fn add_output_dependency<T: ParseFromKV>(&mut self, br: &mut BuildRecord<E>, ptr: &Ptr<T>)
        requires
            old(self).wf(),
        ensures
            old(self).grows_to(*final(self)),
            ptr.state() is TempObject ==> *final(self) == *old(self),
            !(ptr.state() is TempObject) ==> exists|r: bool| old(self).enqueued(*final(self), ptr.spec_path(), ptr.spec_kind(), r),
            record_extends(*old(br), *final(br)),
            final(br).followed() == old(br).followed(),
            final(br).spec_success() == old(br).spec_success(),
            final(br).spec_error() == old(br).spec_error(),
            final(br).spec_built() == old(br).spec_built(),
            final(br).dep_paths().contains(ptr.spec_path()),
            final(br).dep_paths() == if old(br).dep_paths().contains(ptr.spec_path()) {
                old(br).dep_paths()
            } else {
                old(br).dep_paths().push(ptr.spec_path())
            },
            final(br).queued_dep_paths() == if old(br).dep_paths().contains(ptr.spec_path()) || ptr.state() is TempObject {
                old(br).queued_dep_paths()
            } else {
                old(br).queued_dep_paths().insert(ptr.spec_path())
            },
    {
        let path = ptr.get_target_path();
        let kind = ptr.get_kind();
        match path {
            Some(p) => {
                let temp = ptr.is_temp_object();
                br.add_dep(p.as_str(), kind.as_str(), temp);
                proof {
                    lemma_push_paths(old(br).dep_paths(), ptr.spec_path());
                }
                if !temp {
                    let r = self.enqueue(p.as_str(), kind.as_str(), Ghost(self.building_set()));
                    proof {
                        lemma_enqueued_grows(*old(self), *self, ptr.spec_path(), ptr.spec_kind(), r);
                    }
                } else {
                    proof {
                        lemma_grows_refl(*self);
                    }
                }
            },
            None => {},
        }
    }

    /// The published records, in the order their builds finished.
    pub fn peek_build_records(&self) -> (r: &Vec<BuildRecord<E>>)
        ensures
            r@ == self.built_records(),
    {
        &self.built
    }

    /// The record published for `path`, if any.
    pub fn find_record(&self, path: &str) -> (r: Option<&BuildRecord<E>>)
        ensures
            r is Some <==> self.built_paths().contains(path@),
            r matches Some(b) ==> b.spec_path() == path@ && self.built_records().contains(*b),
    {
        let target = String::from_str(path);
        let mut i: usize = 0;
        while i < self.built.len()
            invariant
                i <= self.built.len(),
                target@ == path@,
                forall|j: int| 0 <= j < i ==> self.built@[j].path@ != path@,
            decreases self.built.len() - i,
        {
            if self.built[i].path == target {
                assert(self.built_paths()[i as int] == path@);
                assert(self.built_records()[i as int] == self.built@[i as int]);
                return Some(&self.built[i]);
            }
            i += 1;
        }
        assert(!self.built_paths().contains(path@)) by {
            if self.built_paths().contains(path@) {
                let k = choose|k: int| 0 <= k < self.built_paths().len() && self.built_paths()[k] == path@;
                assert(self.built@[k].path@ == path@);
            }
        }
        None
    }
}

proof fn lemma_grows_refl<E, L: ObjectLoader, B>(pl: Pipeline<E, L, B>)
    requires
        pl.wf(),
    ensures
        pl.grows_to(pl),
{
    assert(pl.inserted_paths().subrange(0, pl.inserted_paths().len() as int) =~= pl.inserted_paths());
    assert(pl.queue().subrange(0, pl.queue().len() as int) =~= pl.queue());
}

proof fn lemma_enqueued_grows<E, L: ObjectLoader, B>(
    before: Pipeline<E, L, B>,
    after: Pipeline<E, L, B>,
    path: Seq<char>,
    kind: Seq<char>,
    r: bool,
)
    requires
        before.wf(),
        after.wf(),
        before.enqueued(after, path, kind, r),
    ensures
        before.grows_to(after),
{
    lemma_grows_refl(before);
    if r {
        lemma_prefix_push(before.inserted_paths(), before.inserted_paths(), path);
        lemma_prefix_push(before.queue(), before.queue(), path);
    }
}

/// Every path has at most one published record.
pub proof fn lemma_built_once<E, L: ObjectLoader, B>(pl: Pipeline<E, L, B>)
    requires
        pl.wf(),
    ensures
        pl.built_paths().no_duplicates(),
{
}

/// Once the queue is empty, every path ever requested has a record, and
/// every record is for a requested path.
pub proof fn lemma_drained_complete<E, L: ObjectLoader, B>(pl: Pipeline<E, L, B>, path: Seq<char>)
    requires
        pl.wf(),
        pl.building() is None,
        pl.queue().len() == 0,
    ensures
        pl.inserted_paths().contains(path) <==> pl.built_paths().contains(path),
{
}

/// Every dependency that a published record names, and that the pipeline
/// builds, has been requested.
pub proof fn lemma_dependency_closure<E, L: ObjectLoader, B>(pl: Pipeline<E, L, B>, i: int, path: Seq<char>)
    requires
        pl.wf(),
        0 <= i < pl.built_records().len(),
        pl.built_records()[i].queued_dep_paths().contains(path),
    ensures
        pl.inserted_paths().contains(path),
{
}

impl<E: TypeDescriptor + BuildFields, L: ObjectLoader, B: Builder<E>> Pipeline<E, L, B> {
    /// The indices of the registered builders that accept `kind`, in
    /// registration order.
    fn builders_for_obj(&self, kind: &str) -> (r: Vec<usize>)
        requires
            self.wf(),
        ensures
            r@ == matching_builders(self.accepted_kinds(), kind@),
            forall|j: int| 0 <= j < r@.len() ==> r@[j] < self.builders().len(),
    {
        let target = String::from_str(kind);
        let mut r: Vec<usize> = Vec::new();
        let mut i: usize = 0;
        while i < self.desc.kinds.len()
            invariant
                i <= self.desc.kinds.len(),
                target@ == kind@,
                self.accepted_kinds() == paths_of(self.desc.kinds@),
                self.builders().len() == self.desc.kinds@.len(),
                r@ == matching_builders(self.accepted_kinds().take(i as int), kind@),
                forall|j: int| 0 <= j < r@.len() ==> r@[j] < i,
            decreases self.desc.kinds.len() - i,
        {
            assert(self.accepted_kinds().take(i + 1).drop_last() =~= self.accepted_kinds().take(i as int));
            if self.desc.kinds[i] == target {
                r.push(i);
            }
            i += 1;
        }
        assert(self.accepted_kinds().take(i as int) =~= self.accepted_kinds());
        r
    }

    /// Runs, in registration order, every builder that accepts `kind` on
    /// `obj`; the first error stops the chain and is returned.
    fn run_builders(&self, br: &mut BuildRecord<E>, obj: &mut E, kind: &str) -> (r: Result<(), PutkiError>)
        requires
            self.wf(),
        ensures
            builders_ran(
                self.builders(),
                matching_builders(self.accepted_kinds(), kind@),
                *old(br),
                *old(obj),
                *final(br),
                *final(obj),
                r,
            ),
    {
        let found = self.builders_for_obj(kind);
        let ghost bs = self.builders();
        let ghost mut brs = seq![*br];
        let ghost mut os = seq![*obj];
        let mut i: usize = 0;
        while i < found.len()
            invariant
                i <= found.len(),
                bs == self.builders(),
                bs == self.desc.builders@,
                found@ == matching_builders(self.accepted_kinds(), kind@),
                forall|j: int| 0 <= j < found@.len() ==> found@[j] < bs.len(),
                brs.len() == i + 1,
                os.len() == i + 1,
                brs[0] == *old(br),
                os[0] == *old(obj),
                brs[i as int] == *br,
                os[i as int] == *obj,
                forall|j: int|
                    0 <= j < i ==> #[trigger] bs[found@[j] as int].build_post(brs[j], os[j], brs[j + 1], os[j + 1], Ok(())),
            decreases found.len() - i,
        {
            let res = self.desc.builders[found[i]].build(br, obj);
            let ghost brs2 = brs.push(*br);
            let ghost os2 = os.push(*obj);
            proof {
                assert(bs[found@[i as int] as int].build_post(brs2[i as int], os2[i as int], brs2[i + 1], os2[i + 1], res));
                assert forall|j: int| 0 <= j < i implies #[trigger] bs[found@[j] as int].build_post(brs2[j], os2[j], brs2[j + 1], os2[j + 1], Ok(())) by {
                    assert(brs2[j] == brs[j] && brs2[j + 1] == brs[j + 1] && os2[j] == os[j] && os2[j + 1] == os[j + 1]);
                }
            }
            match res {
                Ok(u) => {
                    assert(u == ());
                    assert(res == Ok::<(), PutkiError>(()));
                },
                Err(e) => {
                    proof {
                        assert(ran_through(bs, found@, brs2, os2, i + 1, res));
                    }
                    return Err(e);
                },
            }
            proof {
                assert(bs[found@[i as int] as int].build_post(brs2[i as int], os2[i as int], brs2[i + 1], os2[i + 1], Ok(())));
                brs = brs2;
                os = os2;
            }
            i += 1;
        }
        proof {
            if i > 0 {
                let j = i - 1;
                assert(bs[found@[j] as int].build_post(brs[j], os[j], brs[j + 1], os[j + 1], Ok(())));
            }
            assert(ran_through(bs, found@, brs, os, i as int, Ok(())));
        }
        Ok(())
    }

    /// Runs, in registration order, every builder that accepts the kind of
    /// `obj`; the first error stops the chain and is returned.
    pub fn build_field(&self, br: &mut BuildRecord<E>, obj: &mut E) -> (r: Result<(), PutkiError>)
        requires
            self.wf(),
        ensures
            builders_ran(
                self.builders(),
                matching_builders(self.accepted_kinds(), old(obj).spec_type_tag()),
                *old(br),
                *old(obj),
                *final(br),
                *final(obj),
                r,
            ),
    {
        let kind = obj.type_tag();
        self.run_builders(br, obj, kind.as_str())
    }

    /// Builds `obj` in place: its builders first, then its fields. Builders
    /// call this again for the objects they hold.
    pub fn build(&self, br: &mut BuildRecord<E>, obj: &mut E) -> (r: Result<(), PutkiError>)
        requires
            self.wf(),
        ensures
            exists|brm: BuildRecord<E>, om: E, rm: Result<(), PutkiError>|
                #[trigger] builders_ran(
                    self.builders(),
                    matching_builders(self.accepted_kinds(), old(obj).spec_type_tag()),
                    *old(br),
                    *old(obj),
                    brm,
                    om,
                    rm,
                ) && if rm is Err {
                    *final(br) == brm && *final(obj) == om && r == rm
                } else {
                    om.build_fields_post(brm, *final(obj), *final(br), r)
                },
    {
        let ghost (br0, obj0) = (*br, *obj);
        let first = self.build_field(br, obj);
        let ghost (brm, om) = (*br, *obj);
        match first {
            Ok(()) => {},
            Err(e) => {
                assert(builders_ran(self.builders(), matching_builders(self.accepted_kinds(), obj0.spec_type_tag()), br0, obj0, brm, om, first));
                return Err(e);
            },
        }
        let r = obj.build_fields(self, br);
        assert(builders_ran(self.builders(), matching_builders(self.accepted_kinds(), obj0.spec_type_tag()), br0, obj0, brm, om, first));
        r
    }
}

/// `a` is a prefix of `b`.
pub open spec fn prefix_of<T>(a: Seq<T>, b: Seq<T>) -> bool {
    a.len() <= b.len() && b.subrange(0, a.len() as int) == a
}

proof fn lemma_prefix_push<T>(a: Seq<T>, b: Seq<T>, x: T)
    requires
        prefix_of(a, b),
    ensures
        prefix_of(a, b.push(x)),
{
    assert(b.push(x).subrange(0, a.len() as int) =~= b.subrange(0, a.len() as int));
}

proof fn lemma_prefix_contains<T>(a: Seq<T>, b: Seq<T>, p: T)
    requires
        prefix_of(a, b),
        a.contains(p),
    ensures
        b.contains(p),
{
    let k = choose|k: int| 0 <= k < a.len() && a[k] == p;
    assert(b.subrange(0, a.len() as int)[k] == p);
}

impl<E: BuildCandidate, L: ObjectLoader, B: Builder<E>> Pipeline<E, L, B> {
    /// Queues every dependency in `deps` that the pipeline builds.
    fn enqueue_deps(&mut self, deps: &Vec<DepRef>, Ghost(pending): Ghost<Set<Seq<char>>>)
        requires
            old(self).inv(pending),
        ensures
            final(self).inv(pending),
            forall|j: int| 0 <= j < deps@.len() && !deps@[j].temp ==> final(self).inserted_paths().contains(#[trigger] deps@[j].path@),
            final(self).built_records() == old(self).built_records(),
            final(self).loader() == old(self).loader(),
            final(self).builders() == old(self).builders(),
            final(self).accepted_kinds() == old(self).accepted_kinds(),
            prefix_of(old(self).inserted_paths(), final(self).inserted_paths()),
            prefix_of(old(self).queue(), final(self).queue()),
            final(self).inserted_paths().len() - old(self).inserted_paths().len() == final(self).queue().len() - old(self).queue().len(),
            final(self).building() == old(self).building(),
            (forall|j: int| 0 <= j < deps@.len() && !deps@[j].temp ==> old(self).inserted_paths().contains(#[trigger] deps@[j].path@))
                ==> final(self).inserted_paths() == old(self).inserted_paths() && final(self).queue() == old(self).queue(),
    {
        let ghost all_in = forall|j: int| 0 <= j < deps@.len() && !deps@[j].temp ==> old(self).inserted_paths().contains(#[trigger] deps@[j].path@);
        let mut i: usize = 0;
        assert(self.inserted_paths().subrange(0, self.inserted_paths().len() as int) =~= self.inserted_paths());
        assert(self.queue().subrange(0, self.queue().len() as int) =~= self.queue());
        while i < deps.len()
            invariant
                i <= deps.len(),
                self.inv(pending),
                forall|j: int| 0 <= j < i && !deps@[j].temp ==> self.inserted_paths().contains(#[trigger] deps@[j].path@),
                self.built_records() == old(self).built_records(),
                self.loader() == old(self).loader(),
                self.builders() == old(self).builders(),
                self.accepted_kinds() == old(self).accepted_kinds(),
                prefix_of(old(self).inserted_paths(), self.inserted_paths()),
                prefix_of(old(self).queue(), self.queue()),
                self.inserted_paths().len() - old(self).inserted_paths().len() == self.queue().len() - old(self).queue().len(),
                self.building() == old(self).building(),
                all_in == forall|j: int| 0 <= j < deps@.len() && !deps@[j].temp ==> old(self).inserted_paths().contains(#[trigger] deps@[j].path@),
                all_in ==> self.inserted_paths() == old(self).inserted_paths() && self.queue() == old(self).queue(),
            decreases deps.len() - i,
        {
            if !deps[i].temp {
                let ghost before = *self;
                let r = self.enqueue(deps[i].path.as_str(), deps[i].kind.as_str(), Ghost(pending));
                proof {
                    if all_in {
                        assert(old(self).inserted_paths().contains(deps@[i as int].path@));
                    }
                    if r {
                        lemma_push_paths(before.inserted_paths(), deps@[i as int].path@);
                        lemma_prefix_push(old(self).inserted_paths(), before.inserted_paths(), deps@[i as int].path@);
                        lemma_prefix_push(old(self).queue(), before.queue(), deps@[i as int].path@);
                    }
                }
            }
            i += 1;
        }
    }

    /// Publishes `br`, whose path was taken off the queue.
    fn on_build_done(&mut self, br: BuildRecord<E>)
        requires
            old(self).inv(Set::empty().insert(br.spec_path())),
            old(self).building() is None,
            forall|p: Seq<char>| #[trigger] br.queued_dep_paths().contains(p) ==> old(self).inserted_paths().contains(p),
        ensures
            final(self).wf(),
            final(self).built_records() == old(self).built_records().push(br),
            final(self).inserted_paths() == old(self).inserted_paths(),
            final(self).queue() == old(self).queue(),
            final(self).building() is None,
            final(self).loader() == old(self).loader(),
            final(self).builders() == old(self).builders(),
            final(self).accepted_kinds() == old(self).accepted_kinds(),
    {
        let ghost old_built = self.built_paths();
        let ghost path = br.spec_path();
        self.built.push(br);
        assert(self.built_paths() =~= old_built.push(path));
        assert(self.queue() == old(self).queue());
        proof {
            lemma_push_paths(old_built, path);
            assert(Set::<Seq<char>>::empty().insert(path).contains(path));
            assert(!old_built.contains(path));
            assert(!self.queue().contains(path));
            assert forall|p: Seq<char>| #[trigger] self.queue().contains(p) implies !self.built_paths().contains(p) by {
                assert(p != path);
            }
            assert forall|p: Seq<char>| #[trigger] self.inserted_paths().contains(p) <==> self.queue().contains(p) || self.built_paths().contains(p) by {
                assert(old(self).inserted_paths().contains(p) <==> old(self).queue().contains(p) || old_built.contains(p)
                    || Set::<Seq<char>>::empty().insert(path).contains(p));
            }
            assert forall|i: int, p: Seq<char>|
                0 <= i < self.built_records().len() && #[trigger] self.built_records()[i].queued_dep_paths().contains(p)
                    implies self.inserted_paths().contains(p) by {
                if i < old(self).built_records().len() {
                    assert(self.built_records()[i] == old(self).built_records()[i]);
                }
            }
        }
    }

    /// Takes the oldest queued request and builds it: asks the loader for
    /// its path, builds a copy of the parsed entity, lets it request its
    /// dependencies, and publishes the record that `BuildRecord::seal` makes
    /// of the outcome. A path the loader misses gets a failed record. Returns
    /// false, doing nothing, when the queue is empty.
    pub fn take(&mut self) -> (r: bool)
        requires
            old(self).wf(),
            old(self).building() is None,
        ensures
            final(self).wf(),
            final(self).building() is None,
            r == (old(self).queue().len() > 0),
            !r ==> *final(self) == *old(self),
            r ==> take_outcome(*old(self), *final(self)),
    {
        if self.to_build.len() == 0 {
            return false;
        }
        let ghost old_queue = self.queue();
        let ghost old_kinds = self.queue_kinds();
        let BuildRequest { path, kind } = self.to_build.remove(0);
        let ghost pend = Set::<Seq<char>>::empty().insert(path@);
        proof {
            assert(old_queue[0] == path@);
            assert(old_kinds[0] == kind@);
            assert(self.queue() =~= old_queue.drop_first());
            assert(self.queue_kinds() =~= old(self).queue_kinds().drop_first());
            lemma_drop_first_paths(old_queue);
            assert(self.built_paths() == old(self).built_paths());
            assert(old_queue.contains(path@));
            assert forall|p: Seq<char>| #[trigger] pend.contains(p) implies !self.queue().contains(p) && !self.built_paths().contains(p) by {
                assert(p == path@);
            }
            assert forall|p: Seq<char>| #[trigger] self.inserted_paths().contains(p) <==> self.queue().contains(p) || self.built_paths().contains(p)
                || pend.contains(p) by {
                assert(old_queue.contains(p) <==> self.queue().contains(p) || p == path@);
            }
            assert forall|p: Seq<char>| #[trigger] self.queue().contains(p) implies !self.built_paths().contains(p) by {
                assert(old_queue.contains(p));
            }
            assert(self.inv(pend));
        }
        self.building = Some(path.clone());
        assert(self.building_set() =~= pend);
        let ghost started = *self;
        let ghost mut built_by: Option<(E, BuildRecord<E>, BuildRecord<E>, Result<(), PutkiError>, BuildRecord<E>, Pipeline<E, L, B>)> = None;
        let (parsed, diag) = self.desc.source.load_as::<E>(path.as_str(), kind.as_str());
        let mut br = BuildRecord::new(path.clone());
        let (outcome, built_obj) = match parsed {
            Some(mut obj) => {
                let ghost br0 = br;
                let res = obj.build(&*self, &mut br);
                let ghost br1 = br;
                obj.scan_deps(self, &mut br);
                proof {
                    built_by = Some((obj, br0, br1, res, br, *self));
                }
                (res, Some(obj))
            },
            None => {
                proof {
                    lemma_grows_refl(*self);
                }
                (Err(PutkiError::LoadMissing { path: path.clone() }), None)
            },
        };
        let ghost gathered = br;
        let ghost scanned = *self;
        let sealed = BuildRecord::seal(path, built_obj, br, outcome, diag);
        self.building = None;
        let ghost before_deps = *self;
        self.enqueue_deps(&sealed.deps, Ghost(pend));
        proof {
            assert forall|p: Seq<char>| #[trigger] sealed.queued_dep_paths().contains(p) implies self.inserted_paths().contains(p) by {
                let k = choose|k: int| 0 <= k < sealed.deps@.len() && !sealed.deps@[k].temp && sealed.deps@[k].path@ == p;
                assert(self.inserted_paths().contains(sealed.deps@[k].path@));
            }
        }
        self.on_build_done(sealed);
        proof {
            assert(old(self).inserted_paths().subrange(0, old(self).inserted_paths().len() as int) =~= old(self).inserted_paths());
            assert(self.built_records().drop_last() =~= old(self).built_records());
            let rec = self.built_records().last();
            assert(rec == sealed);
            lemma_prefix_trans(old(self).inserted_paths(), started.inserted_paths(), before_deps.inserted_paths());
            assert(before_deps.inserted_paths().subrange(0, before_deps.inserted_paths().len() as int) =~= before_deps.inserted_paths());
            lemma_prefix_trans(started.queue(), before_deps.queue(), self.queue());
            lemma_prefix_trans(old(self).inserted_paths(), before_deps.inserted_paths(), self.inserted_paths());
            if let Some((o1, br0, br1, res, br2, pl2)) = built_by {
                assert forall|j: int| 0 <= j < sealed.deps@.len() && !sealed.deps@[j].temp
                    && (forall|p: Seq<char>| #[trigger] br2.queued_dep_paths().contains(p) ==> pl2.inserted_paths().contains(p))
                    implies scanned.inserted_paths().contains(#[trigger] sealed.deps@[j].path@) by {
                    assert(sealed.queued_dep_paths().contains(sealed.deps@[j].path@));
                }
                assert(built_and_scanned(*old(self), *self, o1, br0, br1, res, br2, started, pl2));
            }
            assert(take_outcome(*old(self), *self));
        }
        true
    }
}

/// `a` prefix of `b` prefix of `c`.
proof fn lemma_prefix_trans<T>(a: Seq<T>, b: Seq<T>, c: Seq<T>)
    requires
        prefix_of(a, b),
        prefix_of(b, c),
    ensures
        prefix_of(a, c),
{
    assert forall|i: int| 0 <= i < a.len() implies c[i] == a[i] by {
        assert(c.subrange(0, b.len() as int)[i] == b[i]);
        assert(b.subrange(0, a.len() as int)[i] == a[i]);
    }
    assert(c.subrange(0, a.len() as int) =~= a);
}

/// What one step that found work does, for the oldest queued path and the
/// loader's answer for it: that path, and only it, gets a record; nothing
/// requested is forgotten; the queue keeps its tail and gains at its end
/// exactly the paths requested for the first time; a missed path fails with
/// `LoadMissing` and an otherwise empty record; a found one produces an
/// object, and a stored tag that differs from the requested kind is the
/// record's first diagnostic. How the build's own result becomes the record
/// is `BuildRecord::seal`.
pub open spec fn take_outcome<E: BuildCandidate, L: ObjectLoader, B: Builder<E>>(before: Pipeline<E, L, B>, after: Pipeline<E, L, B>) -> bool {
    let path = before.queue()[0];
    let kind = before.queue_kinds()[0];
    let found = before.loader().spec_tag(path);
    let rec = after.built_records().last();
    &&& after.loader() == before.loader()
    &&& after.builders() == before.builders()
    &&& after.accepted_kinds() == before.accepted_kinds()
    &&& after.built_records().len() == before.built_records().len() + 1
    &&& after.built_records().drop_last() == before.built_records()
    &&& rec.spec_path() == path
    &&& prefix_of(before.inserted_paths(), after.inserted_paths())
    &&& prefix_of(before.queue().drop_first(), after.queue())
    &&& after.inserted_paths().len() - before.inserted_paths().len() == after.queue().len() - (before.queue().len() - 1)
    &&& (rec.spec_success() <==> rec.spec_error() is None)
    &&& (rec.spec_built() is Some <==> found is Some)
    &&& found is None ==> {
        &&& !rec.spec_success()
        &&& rec.spec_error() matches Some(PutkiError::LoadMissing { path: p }) && p@ == path
        &&& rec.reports().len() == 0
        &&& rec.dep_paths().len() == 0
        &&& rec.followed() == Set::<Seq<char>>::empty()
    }
    &&& found is None ==> after.inserted_paths() == before.inserted_paths() && after.queue() == before.queue().drop_first()
    &&& found is Some ==> exists|
        o1: E,
        br0: BuildRecord<E>,
        br1: BuildRecord<E>,
        res: Result<(), PutkiError>,
        br2: BuildRecord<E>,
        pl1: Pipeline<E, L, B>,
        pl2: Pipeline<E, L, B>,
    | #[trigger] built_and_scanned(before, after, o1, br0, br1, res, br2, pl1, pl2)
    &&& (found is Some && found->0 != kind) ==> {
        &&& rec.reports().len() > 0
        &&& is_mismatch_report(rec.reports()[0], path, kind, found->0)
    }
}

/// Between steps every requested path is queued or built, once: so each
/// step that finds work takes one requested path to its record, and a drain
/// ends after as many steps as paths were requested.
pub proof fn lemma_requested_count<E, L: ObjectLoader, B>(pl: Pipeline<E, L, B>)
    requires
        pl.wf(),
        pl.building() is None,
    ensures
        pl.inserted_paths().len() == pl.queue().len() + pl.built_paths().len(),
{
    let (ins, q, b) = (pl.inserted_paths(), pl.queue(), pl.built_paths());
    ins.unique_seq_to_set();
    q.unique_seq_to_set();
    b.unique_seq_to_set();
    vstd::seq_lib::seq_to_set_is_finite(q);
    vstd::seq_lib::seq_to_set_is_finite(b);
    assert(ins.to_set() =~= q.to_set() + b.to_set());
    assert(q.to_set().disjoint(b.to_set()));
    vstd::set_lib::lemma_set_disjoint_lens(q.to_set(), b.to_set());
}

/// A step that requests no new path shortens the queue by one.
pub proof fn lemma_take_shortens<E: BuildCandidate, L: ObjectLoader, B: Builder<E>>(before: Pipeline<E, L, B>, after: Pipeline<E, L, B>)
    requires
        take_outcome(before, after),
        after.inserted_paths().len() == before.inserted_paths().len(),
    ensures
        after.queue().len() == before.queue().len() - 1,
{
}

/// The oldest queued path was found: the record parsed as the requested kind
/// was built from a fresh record `br0`, leaving `o1`, `br1` and `res`; with
/// the pipeline `pl1` (the path taken off the queue, nothing else changed)
/// the built value named its dependencies, leaving `br2` and `pl2`. The
/// record holds `o1`, is a success exactly when `res` is `Ok`, and keeps the
/// visits and dependencies of `br2`; when all of those were already
/// requested, the step requested nothing more.
pub open spec fn built_and_scanned<E: BuildCandidate, L: ObjectLoader, B: Builder<E>>(
    before: Pipeline<E, L, B>,
    after: Pipeline<E, L, B>,
    o1: E,
    br0: BuildRecord<E>,
    br1: BuildRecord<E>,
    res: Result<(), PutkiError>,
    br2: BuildRecord<E>,
    pl1: Pipeline<E, L, B>,
    pl2: Pipeline<E, L, B>,
) -> bool {
    let path = before.queue()[0];
    let kind = before.queue_kinds()[0];
    let rec = after.built_records().last();
    let o0 = E::spec_parse(before.loader().spec_record(path), kind);
    &&& br0.is_fresh(path)
    &&& o0.candidate_build_post(br0, o1, br1, res)
    &&& o1.scan_deps_post(br1, br2, pl1, pl2)
    &&& pl1.wf()
    &&& pl1.building() == Some(path)
    &&& pl1.queue() == before.queue().drop_first()
    &&& pl1.inserted_paths() == before.inserted_paths()
    &&& pl1.built_records() == before.built_records()
    &&& pl1.grows_to(pl2)
    &&& rec.spec_built() == Some(o1)
    &&& rec.spec_success() == (res is Ok)
    &&& rec.spec_error() == match res {
        Ok(_) => None,
        Err(e) => Some(e),
    }
    &&& rec.dep_paths() == br2.dep_paths()
    &&& rec.queued_dep_paths() == br2.queued_dep_paths()
    &&& rec.followed() == br2.followed()
    &&& (forall|p: Seq<char>| #[trigger] br2.queued_dep_paths().contains(p) ==> pl2.inserted_paths().contains(p))
        ==> after.inserted_paths() == pl2.inserted_paths() && after.queue() == pl2.queue()
}

/// The set of requested paths never shrinks: neither a request nor a build
/// step takes a path out of it.
pub proof fn lemma_inserted_monotone<E: BuildCandidate, L: ObjectLoader, B: Builder<E>>(
    before: Pipeline<E, L, B>,
    after: Pipeline<E, L, B>,
    path: Seq<char>,
)
    requires
        take_outcome(before, after) || exists|
            p: Seq<char>,
            k: Seq<char>,
            r: bool,
        | before.enqueued(after, p, k, r),
        before.inserted_paths().contains(path),
    ensures
        after.inserted_paths().contains(path),
{
    if take_outcome(before, after) {
        lemma_prefix_contains(before.inserted_paths(), after.inserted_paths(), path);
    } else {
        let (p, k, r) = choose|p: Seq<char>, k: Seq<char>, r: bool| before.enqueued(after, p, k, r);
        lemma_push_paths(before.inserted_paths(), p);
    }
}

impl<E, L, B> Forcate for Pipeline<E, L, B> {}

} // verus!
