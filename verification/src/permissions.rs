//! Permission requests waiting for the user's answer.
use vstd::prelude::*;

use crate::keyed::KeyedVec;

verus! {

/// Whether `c` is a lowercase hexadecimal digit.
pub open spec fn is_lower_hex(c: char) -> bool {
    ('0' <= c && c <= '9') || ('a' <= c && c <= 'f')
}

/// Whether `s` is a random (version 4) UUID in hyphenated lowercase form:
/// 36 characters, `-` at 8, 13, 18 and 23, hexadecimal digits elsewhere, the
/// version digit `4` at 14 and a variant digit of `8`, `9`, `a` or `b` at 19.
pub open spec fn uuid_v4_text(s: Seq<char>) -> bool {
    &&& s.len() == 36
    &&& forall|i: int|
        0 <= i < 36 ==> if i == 8 || i == 13 || i == 18 || i == 23 {
            #[trigger] s[i] == '-'
        } else {
            is_lower_hex(s[i])
        }
    &&& s[14] == '4'
    &&& (s[19] == '8' || s[19] == '9' || s[19] == 'a' || s[19] == 'b')
}

/// Calls `uuid::Uuid::new_v4` and writes the id as `Display` does, in
/// hyphenated lowercase form. The bits are random; the crate sets the version
/// to 4 and the variant to that of RFC 4122, so the text has the shape
/// [`uuid_v4_text`] describes, and nothing else is claimed of it.
#[verifier::external_body]
pub(crate) fn new_uuid_v4() -> (r: String)
    ensures
        uuid_v4_text(r@),
{
    uuid::Uuid::new_v4().to_string()
}

/// Pending permission requests, each with the channel `T` its answer goes to.
pub struct PermissionRegistry<T> {
    pending: KeyedVec<T>,
}

impl<T> View for PermissionRegistry<T> {
    type V = Map<Seq<char>, T>;

    closed spec fn view(&self) -> Map<Seq<char>, T> {
        self.pending@
    }
}

impl<T> PermissionRegistry<T> {
    pub closed spec fn wf(&self) -> bool {
        self.pending.wf()
    }

    /// No pending requests.
    pub fn new() -> (r: Self)
        ensures
            r.wf(),
            r@ == Map::<Seq<char>, T>::empty(),
    {
        PermissionRegistry { pending: KeyedVec::new() }
    }

    /// Files a request whose answer goes to `tx`, under a fresh random id,
    /// which it returns.
    pub fn register(&mut self, tx: T) -> (id: String)
        requires
            old(self).wf(),
        ensures
            final(self).wf(),
            uuid_v4_text(id@),
            final(self)@ == old(self)@.insert(id@, tx),
    {
        let id = new_uuid_v4();
        self.pending.insert(id.clone(), tx);
        id
    }

    /// Takes the request `id` out of the pending ones, with the channel its
    /// answer goes to; `None` for an id that is not pending.
    pub fn resolve(&mut self, id: &str) -> (r: Option<T>)
        requires
            old(self).wf(),
        ensures
            final(self).wf(),
            final(self)@ == old(self)@.remove(id@),
            match r {
                Some(tx) => old(self)@.contains_key(id@) && tx == old(self)@[id@],
                None => !old(self)@.contains_key(id@),
            },
    {
        self.pending.remove(id)
    }
}

/// A request is answered once: resolving a registered id gives its channel
/// back, and resolving it again finds nothing.
pub proof fn register_then_resolve<T>(m: Map<Seq<char>, T>, id: Seq<char>, tx: T)
    ensures
        m.insert(id, tx).contains_key(id),
        m.insert(id, tx)[id] == tx,
        !m.insert(id, tx).remove(id).contains_key(id),
{
}

} // verus!
