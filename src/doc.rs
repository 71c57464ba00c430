use vstd::prelude::*;
use crate::text::{chars_of, string_of};
use crate::defer::Command;
use crate::world::{World, WorldError};

verus! {

/// The kinds of documentation an entity can carry.
#[derive(Clone, Copy, Debug, PartialEq, Eq, Structural)]
pub enum DocKind {
    Name,
    Brief,
    Detail,
    Link,
    Color,
    Uuid,
}

/// One documentation string of one entity.
pub struct DocEntry {
    pub entity: u64,
    pub kind: DocKind,
    pub text: Vec<char>,
}

/// The string of kind `kind` of `e`: the last one recorded.
pub open spec fn doc_in(docs: Seq<DocEntry>, e: u64, kind: DocKind) -> Option<Seq<char>>
    decreases docs.len(),
{
    if docs.len() == 0 {
        None
    } else if docs.last().entity == e && docs.last().kind == kind {
        Some(docs.last().text@)
    } else {
        doc_in(docs.drop_last(), e, kind)
    }
}

/// The records after `e`'s string of kind `kind` is set to `text`.
pub open spec fn doc_set(docs: Seq<DocEntry>, e: u64, kind: DocKind, text: Vec<char>) -> Seq<DocEntry> {
    docs.push(DocEntry { entity: e, kind, text })
}

/// After a set, the string read back is the one set, and every string of
/// another entity or kind is kept.
pub proof fn lemma_doc_set(docs: Seq<DocEntry>, e: u64, kind: DocKind, text: Vec<char>, e2: u64, kind2: DocKind)
    ensures
        doc_in(doc_set(docs, e, kind, text), e, kind) == Some(text@),
        !(e2 == e && kind2 == kind) ==> doc_in(doc_set(docs, e, kind, text), e2, kind2) == doc_in(
            docs,
            e2,
            kind2,
        ),
{
    assert(doc_set(docs, e, kind, text).drop_last() =~= docs);
}

impl<V: Copy> World<V> {
    /// The documentation string of kind `kind` of `e`.
    pub open spec fn doc_of(&self, e: u64, kind: DocKind) -> Option<Seq<char>> {
        doc_in(self.docs@, e, kind)
    }

    /// The documentation string of kind `kind` of `e`, if set.
    pub fn doc(&self, e: u64, kind: DocKind) -> (r: Option<String>)
        ensures
            match r {
                Some(s) => self.doc_of(e, kind) == Some(s@),
                None => self.doc_of(e, kind) is None,
            },
    {
        let mut k: usize = self.docs.len();
        assert(self.docs@.subrange(0, k as int) =~= self.docs@);
        while k > 0
            invariant
                k <= self.docs@.len(),
                doc_in(self.docs@, e, kind) == doc_in(self.docs@.subrange(0, k as int), e, kind),
            decreases k,
        {
            let x = &self.docs[k - 1];
            proof {
                let sub = self.docs@.subrange(0, k as int);
                assert(sub.last() == self.docs@[k - 1]);
                assert(sub.drop_last() =~= self.docs@.subrange(0, k - 1));
            }
            if x.entity == e && x.kind == kind {
                return Some(string_of(&x.text));
            }
            k -= 1;
        }
        None
    }

    /// Writes `e`'s string of kind `kind` now.
    pub(crate) fn write_doc(&mut self, e: u64, kind: DocKind, text: Vec<char>)
        ensures
            final(self).docs@ == doc_set(old(self).docs@, e, kind, text),
            final(self).entries@ == old(self).entries@,
            final(self).alive@ == old(self).alive@,
            final(self).gens@ == old(self).gens@,
            final(self).names@ == old(self).names@,
            final(self).parents@ == old(self).parents@,
            final(self).aliases@ == old(self).aliases@,
            final(self).queue@ == old(self).queue@,
            final(self).scope == old(self).scope,
            final(self).with_id == old(self).with_id,
            final(self).defer == old(self).defer,
            final(self).readonly == old(self).readonly,
    {
        self.docs.push(DocEntry { entity: e, kind, text });
    }

    /// Sets the documentation string of kind `kind` of `e` through the
    /// stage: queued while deferred, written at once otherwise.
    pub fn set_doc(&mut self, e: u64, kind: DocKind, text: &str) -> (r: Result<(), WorldError>)
        requires
            old(self).wf(),
        ensures
            final(self).wf(),
            exists|t: Vec<char>| t@ == text@ && old(self).performed(final(self), seq![Command::Document(e, kind, t)]),
            r is Ok <==> (old(self).spec_deferred() || old(self).spec_alive(e)),
    {
        let cs = chars_of(text);
        let ghost t = cs;
        let r = self.submit(Command::Document(e, kind, cs));
        proof {
            assert(t@ == text@);
        }
        r
    }

    /// Human readable name of `e`.
    pub fn doc_name(&self, e: u64) -> (r: Option<String>)
        ensures
            match r {
                Some(s) => self.doc_of(e, DocKind::Name) == Some(s@),
                None => self.doc_of(e, DocKind::Name) is None,
            },
    {
        self.doc(e, DocKind::Name)
    }

    /// Brief description of `e`.
    pub fn doc_brief(&self, e: u64) -> (r: Option<String>)
        ensures
            match r {
                Some(s) => self.doc_of(e, DocKind::Brief) == Some(s@),
                None => self.doc_of(e, DocKind::Brief) is None,
            },
    {
        self.doc(e, DocKind::Brief)
    }

    /// Detailed description of `e`.
    pub fn doc_detail(&self, e: u64) -> (r: Option<String>)
        ensures
            match r {
                Some(s) => self.doc_of(e, DocKind::Detail) == Some(s@),
                None => self.doc_of(e, DocKind::Detail) is None,
            },
    {
        self.doc(e, DocKind::Detail)
    }

    /// Link to external documentation of `e`.
    pub fn doc_link(&self, e: u64) -> (r: Option<String>)
        ensures
            match r {
                Some(s) => self.doc_of(e, DocKind::Link) == Some(s@),
                None => self.doc_of(e, DocKind::Link) is None,
            },
    {
        self.doc(e, DocKind::Link)
    }

    /// Display color of `e`.
    pub fn doc_color(&self, e: u64) -> (r: Option<String>)
        ensures
            match r {
                Some(s) => self.doc_of(e, DocKind::Color) == Some(s@),
                None => self.doc_of(e, DocKind::Color) is None,
            },
    {
        self.doc(e, DocKind::Color)
    }

    /// UUID of `e`.
    pub fn doc_uuid(&self, e: u64) -> (r: Option<String>)
        ensures
            match r {
                Some(s) => self.doc_of(e, DocKind::Uuid) == Some(s@),
                None => self.doc_of(e, DocKind::Uuid) is None,
            },
    {
        self.doc(e, DocKind::Uuid)
    }

    /// Sets the human readable name of `e`; unlike entity names it need not
    /// be unique.
    pub fn set_doc_name(&mut self, e: u64, name: &str) -> (r: Result<(), WorldError>)
        requires
            old(self).wf(),
        ensures
            final(self).wf(),
            exists|t: Vec<char>| t@ == name@ && old(self).performed(
                final(self),
                seq![Command::Document(e, DocKind::Name, t)],
            ),
            r is Ok <==> (old(self).spec_deferred() || old(self).spec_alive(e)),
    {
        self.set_doc(e, DocKind::Name, name)
    }

    /// Sets the brief description of `e`.
    pub fn set_doc_brief(&mut self, e: u64, brief: &str) -> (r: Result<(), WorldError>)
        requires
            old(self).wf(),
        ensures
            final(self).wf(),
            exists|t: Vec<char>| t@ == brief@ && old(self).performed(
                final(self),
                seq![Command::Document(e, DocKind::Brief, t)],
            ),
            r is Ok <==> (old(self).spec_deferred() || old(self).spec_alive(e)),
    {
        self.set_doc(e, DocKind::Brief, brief)
    }

    /// Sets the detailed description of `e`.
    pub fn set_doc_detail(&mut self, e: u64, detail: &str) -> (r: Result<(), WorldError>)
        requires
            old(self).wf(),
        ensures
            final(self).wf(),
            exists|t: Vec<char>| t@ == detail@ && old(self).performed(
                final(self),
                seq![Command::Document(e, DocKind::Detail, t)],
            ),
            r is Ok <==> (old(self).spec_deferred() || old(self).spec_alive(e)),
    {
        self.set_doc(e, DocKind::Detail, detail)
    }

    /// Sets the link to external documentation of `e`.
    pub fn set_doc_link(&mut self, e: u64, link: &str) -> (r: Result<(), WorldError>)
        requires
            old(self).wf(),
        ensures
            final(self).wf(),
            exists|t: Vec<char>| t@ == link@ && old(self).performed(
                final(self),
                seq![Command::Document(e, DocKind::Link, t)],
            ),
            r is Ok <==> (old(self).spec_deferred() || old(self).spec_alive(e)),
    {
        self.set_doc(e, DocKind::Link, link)
    }

    /// Sets the display color of `e`.
    pub fn set_doc_color(&mut self, e: u64, color: &str) -> (r: Result<(), WorldError>)
        requires
            old(self).wf(),
        ensures
            final(self).wf(),
            exists|t: Vec<char>| t@ == color@ && old(self).performed(
                final(self),
                seq![Command::Document(e, DocKind::Color, t)],
            ),
            r is Ok <==> (old(self).spec_deferred() || old(self).spec_alive(e)),
    {
        self.set_doc(e, DocKind::Color, color)
    }

    /// Sets the UUID of `e`.
    pub fn set_doc_uuid(&mut self, e: u64, uuid: &str) -> (r: Result<(), WorldError>)
        requires
            old(self).wf(),
        ensures
            final(self).wf(),
            exists|t: Vec<char>| t@ == uuid@ && old(self).performed(
                final(self),
                seq![Command::Document(e, DocKind::Uuid, t)],
            ),
            r is Ok <==> (old(self).spec_deferred() || old(self).spec_alive(e)),
    {
        self.set_doc(e, DocKind::Uuid, uuid)
    }
}

} // verus!
