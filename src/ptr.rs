use std::rc::Rc;
use vstd::prelude::*;
use crate::source::{InkiPtrContext, LexedKv, ObjectLoader, ParseFromKV, ResolveStatus, Tracker, reports_post, resolve_from};

verus! {

/// Where a pointer stands: waiting on its path, resolved from the source, or
/// holding an object that a builder made.
#[derive(Clone)]
pub enum PtrState<T> {
    Unresolved,
    Resolved(Rc<T>),
    TempObject(Rc<T>),
}

/// A lazy typed reference to an entity. `kind` names the entity kind that the
/// target is expected to have, and the kind it is parsed as.
#[derive(Clone)]
pub struct Ptr<T> {
    path: String,
    kind: String,
    state: PtrState<T>,
}

/// Relies on `Rc::clone`: the copy points at the same value.
#[verifier::external_body]
fn share<T>(r: &Rc<T>) -> (s: Rc<T>)
    ensures
        s == *r,
{
    Rc::clone(r)
}

/// What `resolve` does: a pointer that already holds its object returns it and
/// stays as it is; an unresolved one is looked up, becomes `Resolved` on a
/// hit, holding the record parsed as its kind, and stays unresolved on a
/// miss. `found` and `kv` are the loader's tag and record for the path.
pub open spec fn ptr_resolve_post<T: ParseFromKV>(
    found: Option<Seq<char>>,
    kv: LexedKv,
    before: Ptr<T>,
    after: Ptr<T>,
    r: Option<Rc<T>>,
) -> bool {
    &&& after.spec_path() == before.spec_path()
    &&& after.spec_kind() == before.spec_kind()
    &&& match before.state() {
        PtrState::Unresolved => {
            &&& (r is Some <==> found is Some)
            &&& match r {
                Some(o) => after.state() == PtrState::Resolved(o) && *o == T::spec_parse(kv, before.spec_kind()),
                None => after.state() is Unresolved,
            }
        },
        PtrState::Resolved(o) => r == Some(o) && after == before,
        PtrState::TempObject(o) => r == Some(o) && after == before,
    }
}

impl<T> Ptr<T> {
    pub closed spec fn spec_path(&self) -> Seq<char> {
        self.path@
    }

    pub closed spec fn spec_kind(&self) -> Seq<char> {
        self.kind@
    }

    pub closed spec fn state(&self) -> PtrState<T> {
        self.state
    }
}

impl<T: ParseFromKV> Ptr<T> {
    /// An unresolved pointer to `path`, expected to be of kind `kind`.
    pub fn new(path: &str, kind: &str) -> (r: Self)
        ensures
            r.spec_path() == path@,
            r.spec_kind() == kind@,
            r.state() is Unresolved,
    {
        Ptr { path: String::from_str(path), kind: String::from_str(kind), state: PtrState::Unresolved }
    }

    /// A pointer that already holds `obj`, made by a builder under `path`.
    pub fn new_temp_object(path: &str, kind: &str, obj: Rc<T>) -> (r: Self)
        ensures
            r.spec_path() == path@,
            r.spec_kind() == kind@,
            r.state() == PtrState::TempObject(obj),
    {
        Ptr { path: String::from_str(path), kind: String::from_str(kind), state: PtrState::TempObject(obj) }
    }

    /// The logical path of the target.
    pub fn get_target_path(&self) -> (r: Option<String>)
        ensures
            r matches Some(p) && p@ == self.spec_path(),
    {
        Some(self.path.clone())
    }

    /// The kind the target is expected to have.
    pub fn get_kind(&self) -> (r: String)
        ensures
            r@ == self.spec_kind(),
    {
        self.kind.clone()
    }

    /// Whether a builder made the target.
    pub fn is_temp_object(&self) -> (r: bool)
        ensures
            r == (self.state() is TempObject),
    {
        match &self.state {
            PtrState::TempObject(_) => true,
            _ => false,
        }
    }

    /// Forces the pointer: once it holds its value, hands out that value.
    /// `tracker` is told of the path on every call, and of a tag mismatch.
    pub fn resolve<L: ObjectLoader, K: Tracker>(&mut self, ctx: &InkiPtrContext<L>, tracker: &mut K) -> (r: Option<Rc<T>>)
        ensures
            ptr_resolve_post(
                ctx.source.loader().spec_tag(old(self).spec_path()),
                ctx.source.loader().spec_record(old(self).spec_path()),
                *old(self),
                *final(self),
                r,
            ),
            final(tracker).spec_followed() == old(tracker).spec_followed().insert(old(self).spec_path()),
            old(self).state() is Unresolved ==> reports_post(
                ctx.source.loader().spec_tag(old(self).spec_path()),
                old(self).spec_path(),
                old(self).spec_kind(),
                old(tracker).spec_reports(),
                final(tracker).spec_reports(),
            ),
            !(old(self).state() is Unresolved) ==> final(tracker).spec_reports() == old(tracker).spec_reports(),
    {
        tracker.follow(self.path.as_str());
        match &self.state {
            PtrState::Resolved(o) => {
                return Some(share(o));
            },
            PtrState::TempObject(o) => {
                return Some(share(o));
            },
            PtrState::Unresolved => {},
        }
        match resolve_from::<L, T, K>(ctx, self.path.as_str(), self.kind.as_str(), tracker) {
            ResolveStatus::Resolved(o) => {
                self.state = PtrState::Resolved(share(&o));
                Some(o)
            },
            _ => None,
        }
    }
}

/// Calling `resolve` twice on one pointer: once the first call succeeded, the
/// second hands back the same shared value and changes nothing.
pub proof fn lemma_resolve_idempotent<T: ParseFromKV>(
    found: Option<Seq<char>>,
    kv: LexedKv,
    p0: Ptr<T>,
    p1: Ptr<T>,
    p2: Ptr<T>,
    r1: Option<Rc<T>>,
    r2: Option<Rc<T>>,
)
    requires
        ptr_resolve_post(found, kv, p0, p1, r1),
        ptr_resolve_post(found, kv, p1, p2, r2),
        r1 is Some,
    ensures
        r2 == r1,
        p2 == p1,
{
}

} // verus!
