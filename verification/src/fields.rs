//! The fields of one sentence, read in order.

use vstd::prelude::*;

verus! {

/// The characters of an optional field: `None` for a field that is absent.
pub open spec fn field_text(field: Option<&str>) -> Option<Seq<char>> {
    match field {
        Some(s) => Some(s@),
        None => None,
    }
}

/// The texts of a run of fields.
pub open spec fn texts_of(items: Seq<&str>) -> Seq<Seq<char>> {
    Seq::new(items.len(), |i: int| items[i]@)
}

/// The field at a position of a sentence: `None` past the last field.
pub open spec fn field_at(fields: Seq<Seq<char>>, position: int) -> Option<Seq<char>> {
    if 0 <= position < fields.len() {
        Some(fields[position])
    } else {
        None
    }
}

/// True for a field that carries no data: one that is absent, or empty.
pub open spec fn is_blank(field: Option<Seq<char>>) -> bool {
    match field {
        Some(text) => text.len() == 0,
        None => true,
    }
}

/// What is left of a sentence after `count` of its fields were read.
pub open spec fn rest_after(fields: Seq<Seq<char>>, count: int) -> Seq<Seq<char>> {
    if count <= 0 {
        fields
    } else if count < fields.len() {
        fields.subrange(count, fields.len() as int)
    } else {
        Seq::empty()
    }
}

/// Reading one more field after `count` of them leaves what reading
/// `count + 1` leaves, and the field read is the one at position `count`.
pub proof fn lemma_rest_after_next(fields: Seq<Seq<char>>, count: int)
    requires
        0 <= count,
    ensures
        field_at(rest_after(fields, count), 0) == field_at(fields, count),
        rest_after(rest_after(fields, count), 1) == rest_after(fields, count + 1),
{
    assert(rest_after(rest_after(fields, count), 1) =~= rest_after(fields, count + 1));
}

/// A cursor over the comma-separated fields of one sentence. Its view is the
/// texts of the fields that were not read yet, the next one first.
pub struct Fields<'a> {
    items: &'a [&'a str],
    position: usize,
}

impl<'a> View for Fields<'a> {
    type V = Seq<Seq<char>>;

    closed spec fn view(&self) -> Seq<Seq<char>> {
        rest_after(texts_of(self.items@), self.position as int)
    }
}

impl<'a> Fields<'a> {
    #[verifier::type_invariant]
    spec fn in_bounds(self) -> bool {
        self.position <= self.items@.len()
    }

    /// A cursor in front of the first of `items`.
    pub fn new(items: &'a [&'a str]) -> (fields: Fields<'a>)
        ensures
            fields@ == texts_of(items@),
    {
        Fields { items, position: 0 }
    }

    /// Reads the next field. Once the fields are used up this keeps
    /// returning `None`.
    pub fn next(&mut self) -> (field: Option<&'a str>)
        ensures
            field_text(field) == field_at(old(self)@, 0),
            final(self)@ == rest_after(old(self)@, 1),
    {
        proof {
            use_type_invariant(&*self);
        }
        if self.position < self.items.len() {
            let field = self.items[self.position];
            self.position = self.position + 1;
            assert(final(self)@ =~= rest_after(old(self)@, 1));
            Some(field)
        } else {
            assert(final(self)@ =~= rest_after(old(self)@, 1));
            None
        }
    }

    /// The number of fields that were not read yet.
    pub fn remaining(&self) -> (count: usize)
        ensures
            count == self@.len(),
    {
        proof {
            use_type_invariant(self);
        }
        self.items.len() - self.position
    }
}

} // verus!
