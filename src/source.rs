use std::rc::Rc;
use vstd::prelude::*;
use crate::error::PutkiError;

verus! {

/// A lexed key-value record, as the source lexer hands it over.
/// The resolver only passes it through to `ParseFromKV::parse`.
#[derive(Clone)]
pub struct LexedKv {
    pub entries: Vec<(String, String)>,
}

/// Outcome of resolving a path to a typed value.
pub enum ResolveStatus<T> {
    Resolved(Rc<T>),
    Failed,
    Null,
}

/// Reads source records by logical path: the stored type tag and the lexed
/// record, or nothing where the path is unknown.
pub trait ObjectLoader {
    /// The tag stored under `path`, or `None` where the loader knows no
    /// record. Loading is a pure read, so this is a function of the path.
    /// A loader proved with Verus defines it; the default leaves it open.
    closed spec fn spec_tag(&self, path: Seq<char>) -> Option<Seq<char>> {
        arbitrary()
    }

    /// The record stored under `path`, where there is one. A loader proved
    /// with Verus defines it; the default leaves it open.
    closed spec fn spec_record(&self, path: Seq<char>) -> LexedKv {
        arbitrary()
    }

    fn load(&self, path: &str) -> (r: Option<(String, LexedKv)>)
        ensures
            found_tag(r) == self.spec_tag(path@),
            r matches Some((_, kv)) ==> kv == self.spec_record(path@),
    ;
}

/// An entity that can be built from a lexed record.
pub trait ParseFromKV: Sized {
    /// The value that parsing `kv` as `kind` gives. An impl proved with
    /// Verus defines it; the default leaves it open.
    closed spec fn spec_parse(kv: LexedKv, kind: Seq<char>) -> Self {
        arbitrary()
    }

    /// Parses `kv` as the entity kind named `kind`.
    fn parse(kv: &LexedKv, kind: &str) -> (r: Self)
        ensures
            r == Self::spec_parse(*kv, kind@),
    ;
}

/// Receives the resolver's notifications: every followed path, and the
/// diagnostics raised while resolving.
pub trait Tracker {
    /// The paths followed so far. An impl proved with Verus defines it; the
    /// default leaves it open.
    closed spec fn spec_followed(&self) -> Set<Seq<char>> {
        arbitrary()
    }

    /// The diagnostics received so far, in order. An impl proved with Verus
    /// defines it; the default leaves it open.
    closed spec fn spec_reports(&self) -> Seq<PutkiError> {
        arbitrary()
    }

    fn follow(&mut self, path: &str)
        ensures
            final(self).spec_followed() == old(self).spec_followed().insert(path@),
            final(self).spec_reports() == old(self).spec_reports(),
    ;

    fn report(&mut self, e: PutkiError)
        ensures
            final(self).spec_followed() == old(self).spec_followed(),
            final(self).spec_reports() == old(self).spec_reports().push(e),
    ;
}

/// Resolves logical paths to typed values through one loader.
pub struct InkiResolver<L> {
    loader: L,
}

/// A cheap, shareable handle on a resolver.
pub struct InkiPtrContext<L> {
    pub source: Rc<InkiResolver<L>>,
}

/// Whether `e` is the diagnostic for the record under `path`, tagged `found`,
/// read as `expected`.
pub open spec fn is_mismatch_report(e: PutkiError, path: Seq<char>, expected: Seq<char>, found: Seq<char>) -> bool {
    match e {
        PutkiError::TypeMismatch { path: p, expected: x, found: f } => p@ == path && x@ == expected && f@ == found,
        _ => false,
    }
}

/// The diagnostic that reading `path` as `kind` raises, given the tag the
/// loader found (`None`: the loader missed): a mismatch report exactly when a
/// tag was found and differs from `kind`.
pub open spec fn mismatch_post(found: Option<Seq<char>>, path: Seq<char>, kind: Seq<char>, d: Option<PutkiError>) -> bool {
    match found {
        Some(tag) if tag != kind => d matches Some(e) && is_mismatch_report(e, path, kind, tag),
        _ => d is None,
    }
}

/// What resolving a path as `kind` returns, given the tag the loader found
/// and the record it holds: `Failed` on a miss; on a hit, whatever the tag,
/// the record parsed as `kind`.
pub open spec fn resolve_post<T: ParseFromKV>(found: Option<Seq<char>>, kv: LexedKv, kind: Seq<char>, r: ResolveStatus<T>) -> bool {
    match found {
        Some(_) => r matches ResolveStatus::Resolved(o) && *o == T::spec_parse(kv, kind),
        None => r is Failed,
    }
}

/// The same outcome without the shared handle: `None` on a miss, else the
/// record parsed as `kind`.
pub open spec fn parsed_post<T: ParseFromKV>(found: Option<Seq<char>>, kv: LexedKv, kind: Seq<char>, v: Option<T>) -> bool {
    match found {
        Some(_) => v == Some(T::spec_parse(kv, kind)),
        None => v is None,
    }
}

/// The record of a loader's answer, where it has one.
pub open spec fn found_record(loaded: Option<(String, LexedKv)>) -> LexedKv {
    match loaded {
        Some((_, kv)) => kv,
        None => arbitrary(),
    }
}

/// What resolving `path` as `kind` leaves in a tracker's diagnostics, given
/// the loader's answer: the mismatch report appended exactly when a tag was
/// found and differs from `kind`.
pub open spec fn reports_post(found: Option<Seq<char>>, path: Seq<char>, kind: Seq<char>, before: Seq<PutkiError>, after: Seq<PutkiError>) -> bool {
    if found is Some && found->0 != kind {
        &&& after.len() == before.len() + 1
        &&& after.drop_last() == before
        &&& is_mismatch_report(after.last(), path, kind, found->0)
    } else {
        after == before
    }
}

/// The tag of a loader's answer.
pub open spec fn found_tag(loaded: Option<(String, LexedKv)>) -> Option<Seq<char>> {
    match loaded {
        Some((tag, _)) => Some(tag@),
        None => None,
    }
}

/// Turns a loader's answer for `path` into a value parsed as `kind`: a
/// record whose stored tag differs from `kind` is still parsed as `kind`, and
/// the mismatch comes back as a diagnostic.
pub fn parse_loaded<T: ParseFromKV>(loaded: Option<(String, LexedKv)>, path: &str, kind: &str) -> (r: (Option<T>, Option<PutkiError>))
    ensures
        parsed_post(found_tag(loaded), found_record(loaded), kind@, r.0),
        mismatch_post(found_tag(loaded), path@, kind@, r.1),
{
    match loaded {
        Some((tag, kv)) => {
            let expected = String::from_str(kind);
            let diag = if expected == tag {
                None
            } else {
                Some(PutkiError::TypeMismatch { path: String::from_str(path), expected, found: tag })
            };
            (Some(T::parse(&kv, kind)), diag)
        },
        None => (None, None),
    }
}

/// Turns a loader's answer for `path` into a resolution as `kind`, as
/// `parse_loaded` does, with the value in a shared handle.
pub fn resolve_loaded<T: ParseFromKV>(loaded: Option<(String, LexedKv)>, path: &str, kind: &str) -> (r: (
    ResolveStatus<T>,
    Option<PutkiError>,
))
    ensures
        resolve_post(found_tag(loaded), found_record(loaded), kind@, r.0),
        mismatch_post(found_tag(loaded), path@, kind@, r.1),
{
    let (v, diag) = parse_loaded::<T>(loaded, path, kind);
    match v {
        Some(o) => (ResolveStatus::Resolved(Rc::new(o)), diag),
        None => (ResolveStatus::Failed, diag),
    }
}

impl<L: ObjectLoader> InkiResolver<L> {
    pub fn new(loader: L) -> (r: Self)
        ensures
            r.loader() == loader,
    {
        InkiResolver { loader }
    }

    pub closed spec fn loader(&self) -> L {
        self.loader
    }

    /// Asks the loader for `path` and parses the record as `kind`, with the
    /// tag-mismatch diagnostic, if any.
    pub fn load_as<T: ParseFromKV>(&self, path: &str, kind: &str) -> (r: (Option<T>, Option<PutkiError>))
        ensures
            parsed_post(self.loader().spec_tag(path@), self.loader().spec_record(path@), kind@, r.0),
            mismatch_post(self.loader().spec_tag(path@), path@, kind@, r.1),
    {
        let loaded = self.loader.load(path);
        parse_loaded::<T>(loaded, path, kind)
    }

    /// Asks the loader for `path` and parses the record as `kind` into a
    /// shared handle, with the tag-mismatch diagnostic, if any.
    pub fn resolve<T: ParseFromKV>(&self, path: &str, kind: &str) -> (r: (ResolveStatus<T>, Option<PutkiError>))
        ensures
            resolve_post(self.loader().spec_tag(path@), self.loader().spec_record(path@), kind@, r.0),
            mismatch_post(self.loader().spec_tag(path@), path@, kind@, r.1),
    {
        let loaded = self.loader.load(path);
        resolve_loaded::<T>(loaded, path, kind)
    }
}

/// Resolves `path` as `kind` through the context's resolver, reporting a tag
/// mismatch to `tracker`.
pub fn resolve_from<L: ObjectLoader, T: ParseFromKV, K: Tracker>(
    ctx: &InkiPtrContext<L>,
    path: &str,
    kind: &str,
    tracker: &mut K,
) -> (r: ResolveStatus<T>)
    ensures
        resolve_post(ctx.source.loader().spec_tag(path@), ctx.source.loader().spec_record(path@), kind@, r),
        reports_post(ctx.source.loader().spec_tag(path@), path@, kind@, old(tracker).spec_reports(), final(tracker).spec_reports()),
        final(tracker).spec_followed() == old(tracker).spec_followed(),
{
    let (status, diag) = ctx.source.resolve::<T>(path, kind);
    match diag {
        Some(e) => {
            tracker.report(e);
            assert(tracker.spec_reports().drop_last() =~= old(tracker).spec_reports());
        },
        None => {},
    }
    status
}

/// A record whose stored tag is the requested kind resolves without any
/// mismatch diagnostic.
pub proof fn lemma_tag_fidelity<T: ParseFromKV>(path: Seq<char>, kind: Seq<char>, kv: LexedKv, r: ResolveStatus<T>, d: Option<PutkiError>)
    requires
        resolve_post(Some(kind), kv, kind, r),
        mismatch_post(Some(kind), path, kind, d),
    ensures
        r matches ResolveStatus::Resolved(o) && *o == T::spec_parse(kv, kind),
        d is None,
{
}

} // verus!
