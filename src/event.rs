use vstd::prelude::*;

use crate::level::Level;

verus! {

/// The value of one structured field of an event.
#[derive(Debug)]
pub enum FieldValue {
    Str(String),
    Int(i64),
    Uint(u64),
    Bool(bool),
    /// Any other value, kept in its debug rendering.
    Debug(String),
}

/// One captured event: its severity, its origin, its message and its fields.
///
/// The record owns all of its data and offers no way to change it.
#[derive(Debug)]
pub struct CollectedEvent {
    level: Level,
    target: String,
    message: Option<String>,
    fields: Vec<(String, FieldValue)>,
}

impl CollectedEvent {
    pub closed spec fn spec_level(&self) -> Level {
        self.level
    }

    /// The origin of the event, as a sequence of characters.
    pub closed spec fn spec_target(&self) -> Seq<char> {
        self.target@
    }

    pub closed spec fn spec_message(&self) -> Option<String> {
        self.message
    }

    pub closed spec fn spec_fields(&self) -> Seq<(String, FieldValue)> {
        self.fields@
    }

    /// Whether two records hold the same level, origin, message and fields.
    pub open spec fn same_as(self, other: CollectedEvent) -> bool {
        &&& self.spec_level() == other.spec_level()
        &&& self.spec_target() == other.spec_target()
        &&& self.spec_message() == other.spec_message()
        &&& self.spec_fields() == other.spec_fields()
    }

    pub fn new(
        level: Level,
        target: String,
        message: Option<String>,
        fields: Vec<(String, FieldValue)>,
    ) -> (r: CollectedEvent)
        ensures
            r.spec_level() == level,
            r.spec_target() == target@,
            r.spec_message() == message,
            r.spec_fields() == fields@,
    {
        CollectedEvent { level, target, message, fields }
    }

    pub fn level(&self) -> (r: Level)
        ensures
            r == self.spec_level(),
    {
        self.level
    }

    pub fn target(&self) -> (r: &str)
        ensures
            r@ == self.spec_target(),
    {
        self.target.as_str()
    }

    pub fn message(&self) -> (r: &Option<String>)
        ensures
            *r == self.spec_message(),
    {
        &self.message
    }

    pub fn fields(&self) -> (r: &Vec<(String, FieldValue)>)
        ensures
            r@ == self.spec_fields(),
    {
        &self.fields
    }
}

/// Whether two sequences of records are the same record for record.
pub open spec fn same_records(a: Seq<CollectedEvent>, b: Seq<CollectedEvent>) -> bool {
    a.len() == b.len() && forall|i: int| 0 <= i < a.len() ==> (#[trigger] a[i]).same_as(b[i])
}

impl Clone for FieldValue {
    fn clone(&self) -> (r: FieldValue)
        ensures
            r == *self,
    {
        match self {
            FieldValue::Str(s) => FieldValue::Str(s.clone()),
            FieldValue::Int(v) => FieldValue::Int(*v),
            FieldValue::Uint(v) => FieldValue::Uint(*v),
            FieldValue::Bool(v) => FieldValue::Bool(*v),
            FieldValue::Debug(s) => FieldValue::Debug(s.clone()),
        }
    }
}

impl Clone for CollectedEvent {
    fn clone(&self) -> (r: CollectedEvent)
        ensures
            r.same_as(*self),
    {
        let message = match &self.message {
            Some(m) => Some(m.clone()),
            None => None,
        };
        let mut fields: Vec<(String, FieldValue)> = Vec::new();
        let mut i: usize = 0;
        while i < self.fields.len()
            invariant
                i <= self.fields@.len(),
                fields@ == self.fields@.subrange(0, i as int),
            decreases self.fields@.len() - i,
        {
            let (name, value) = &self.fields[i];
            fields.push((name.clone(), value.clone()));
            i = i + 1;
        }
        assert(fields@ == self.fields@);
        CollectedEvent { level: self.level, target: self.target.clone(), message, fields }
    }
}

} // verus!
