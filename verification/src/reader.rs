use vstd::prelude::*;

use crate::ascii::{ap_field, ap_node, ap_stream, AsciiReader};
use crate::binary::{bp_field, bp_node, bp_stream, BinaryReader};
use crate::error::VisitError;
use crate::field::Field;
use crate::pool::Handle;
use crate::visitor::{forest, full_pool, tree_of, visitor_tree, visitor_wf, Visitor};

verus! {

/// A decoder of one of the two wire formats.
pub trait Reader {
    /// The reader's source is in a readable state.
    spec fn wf(&self) -> bool;

    /// How many source bytes are left to read.
    spec fn remaining(&self) -> int;

    /// How many bytes the whole source holds.
    spec fn source_len(&self) -> int;

    fn read_field(&mut self) -> (r: Result<Field, VisitError>)
        requires
            old(self).wf(),
        ensures
            final(self).wf(),
    ;

    fn read_node(&mut self, visitor: &mut Visitor) -> (r: Result<Handle, VisitError>)
        requires
            old(self).wf(),
            old(visitor).nodes.wf(),
            full_pool(old(visitor).nodes@),
            old(visitor).nodes@.len() + old(self).remaining() < u32::MAX,
        ensures
            final(self).wf(),
            final(visitor).nodes.wf(),
            full_pool(final(visitor).nodes@),
            forall|k: int|
                0 <= k < old(visitor).nodes@.len() ==> final(visitor).nodes@[k] == old(
                    visitor,
                ).nodes@[k],
    ;

    fn read(&mut self) -> (r: Result<Visitor, VisitError>)
        requires
            old(self).wf(),
            old(self).source_len() < u32::MAX,
        ensures
            final(self).wf(),
            r matches Ok(vis) ==> visitor_wf(vis),
    ;
}

impl<'a> Reader for BinaryReader<'a> {
    open spec fn wf(&self) -> bool {
        BinaryReader::wf(*self)
    }

    open spec fn remaining(&self) -> int {
        self.data@.len() - self.pos
    }

    open spec fn source_len(&self) -> int {
        self.data@.len() as int
    }

    fn read_field(&mut self) -> (r: Result<Field, VisitError>)
        ensures
            final(self).data@ == old(self).data@,
            match bp_field(old(self).data@, old(self).pos as int) {
                Ok((f, j)) => r matches Ok(fv) && fv@ == f && final(self).pos as int == j,
                Err(e) => r matches Err(er) && er@ == e,
            },
    {
        BinaryReader::read_field(self)
    }

    fn read_node(&mut self, visitor: &mut Visitor) -> (r: Result<Handle, VisitError>)
        ensures
            final(self).data@ == old(self).data@,
            match bp_node(old(self).data@, old(self).pos as int) {
                Ok((t, j)) => r matches Ok(h) && final(self).pos as int == j && forest(
                    final(visitor).nodes@,
                    old(visitor).nodes@.len() as int,
                    final(visitor).nodes@.len() as int,
                    seq![h],
                ) && h.index as int == final(visitor).nodes@.len() - 1 && tree_of(
                    final(visitor).nodes@,
                    h.index as int,
                ) == t,
                Err(e) => r matches Err(er) && er@ == e,
            },
    {
        BinaryReader::read_node(self, visitor)
    }

    fn read(&mut self) -> (r: Result<Visitor, VisitError>)
        ensures
            final(self).data@ == old(self).data@,
            match bp_stream(old(self).data@) {
                Ok((t, j)) => r matches Ok(vis) && visitor_wf(vis) && visitor_tree(vis) == t
                    && final(self).pos as int == j,
                Err(e) => r matches Err(er) && er@ == e,
            },
    {
        BinaryReader::read(self)
    }
}

impl<'a> Reader for AsciiReader<'a> {
    open spec fn wf(&self) -> bool {
        self.src.wf()
    }

    open spec fn remaining(&self) -> int {
        self.src.data@.len() - self.src.pos
    }

    open spec fn source_len(&self) -> int {
        self.src.data@.len() as int
    }

    fn read_field(&mut self) -> (r: Result<Field, VisitError>)
        ensures
            final(self).src.data@ == old(self).src.data@,
            match ap_field(old(self).src.data@, old(self).src.pos as int) {
                Ok((f, j)) => r matches Ok(fv) && fv@ == f && final(self).src.pos as int == j,
                Err(e) => r matches Err(er) && er@ == e,
            },
    {
        AsciiReader::read_field(self)
    }

    fn read_node(&mut self, visitor: &mut Visitor) -> (r: Result<Handle, VisitError>)
        ensures
            final(self).src.data@ == old(self).src.data@,
            match ap_node(old(self).src.data@, old(self).src.pos as int) {
                Ok((t, j)) => r matches Ok(h) && final(self).src.pos as int == j && forest(
                    final(visitor).nodes@,
                    old(visitor).nodes@.len() as int,
                    final(visitor).nodes@.len() as int,
                    seq![h],
                ) && h.index as int == final(visitor).nodes@.len() - 1 && tree_of(
                    final(visitor).nodes@,
                    h.index as int,
                ) == t,
                Err(e) => r matches Err(er) && er@ == e,
            },
    {
        AsciiReader::read_node(self, visitor)
    }

    fn read(&mut self) -> (r: Result<Visitor, VisitError>)
        ensures
            final(self).src.data@ == old(self).src.data@,
            match ap_stream(old(self).src.data@) {
                Ok((t, j)) => r matches Ok(vis) && visitor_wf(vis) && visitor_tree(vis) == t
                    && final(self).src.pos as int == j,
                Err(e) => r matches Err(er) && er@ == e,
            },
    {
        AsciiReader::read(self)
    }
}

/// A stream with a corrupted magic marker is rejected as not-supported by
/// both formats, before any node is decoded: the readers' contracts then
/// force the error return, so no visitor is ever produced from it.
pub proof fn lemma_bad_magic_rejected(s: Seq<u8>)
    requires
        s.len() >= 4,
        s.subrange(0, 4) != crate::binary::magic_bytes(),
    ensures
        bp_stream(s) == Err::<(crate::visitor::TreeS, int), crate::error::ErrS>(
            crate::error::ErrS::NotSupportedFormat,
        ),
        ap_stream(s) == Err::<(crate::visitor::TreeS, int), crate::error::ErrS>(
            crate::error::ErrS::NotSupportedFormat,
        ),
{
}

/// A binary field whose type tag lies outside the table fails with the
/// unrecognized-tag error naming that very byte.
pub proof fn lemma_unknown_tag_rejected(tag: u8, s: Seq<u8>, i: int)
    requires
        !(1 <= tag <= 49),
    ensures
        crate::binary::bp_payload(tag, s, i) == Err::<
            (crate::field::FieldKindS, int),
            crate::error::ErrS,
        >(crate::error::ErrS::UnknownFieldType(tag)),
{
}

} // verus!
