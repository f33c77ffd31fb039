//! The typed messages that the components of the pipeline exchange, each
//! with the mathematical value that contracts speak of.

use vstd::prelude::*;
use vstd::string::*;
use crate::text::{append_decimal, decimal};

verus! {

/// The `byte_length` that marks a field whose length travels with the data.
pub const VARIABLE_LENGTH: u16 = 65535;

/// The views of the items of `items`, in order.
pub open spec fn views<T: View>(items: Seq<T>) -> Seq<T::V> {
    Seq::new(items.len(), |i: int| items[i]@)
}

/// One field of a template: which information element it carries, how many
/// bytes it takes in a data record, and the counter it is bound to.
#[derive(Clone, Debug, PartialEq, Eq)]
pub struct FieldSpec {
    /// Information element id as the field specifier spells it; ids from
    /// 32768 on are enterprise-specific.
    pub information_element_id: u16,
    /// Fixed length in bytes, or `VARIABLE_LENGTH`.
    pub byte_length: u16,
    /// Name of the counter that the field's value is bound to.
    pub sai_counter_name: String,
}

/// The value of a `FieldSpec`.
pub struct FieldSpecView {
    pub information_element_id: u16,
    pub byte_length: u16,
    pub sai_counter_name: Seq<char>,
}

impl View for FieldSpec {
    type V = FieldSpecView;

    open spec fn view(&self) -> FieldSpecView {
        FieldSpecView {
            information_element_id: self.information_element_id,
            byte_length: self.byte_length,
            sai_counter_name: self.sai_counter_name@,
        }
    }
}

/// The name that a field defined inside a frame is bound to. A Template Set
/// names no counters, so the name is made of the information element id:
/// `ie_` and the id in decimal.
pub open spec fn element_name(id: u16) -> Seq<char> {
    seq!['i', 'e', '_'] + decimal(id as nat)
}

impl FieldSpec {
    /// The field that a field specifier inside a frame defines.
    pub fn from_specifier(information_element_id: u16, byte_length: u16) -> (field: FieldSpec)
        ensures
            field@ == (FieldSpecView {
                information_element_id,
                byte_length,
                sai_counter_name: element_name(information_element_id),
            }),
    {
        let mut name = String::from_str("ie_");
        proof {
            reveal_strlit("ie_");
            assert(name@ =~= seq!['i', 'e', '_']);
        }
        append_decimal(&mut name, information_element_id as u64);
        FieldSpec { information_element_id, byte_length, sai_counter_name: name }
    }
}

/// What a template update asks for.
#[derive(Clone, Copy, Debug, PartialEq, Eq)]
pub enum TemplateOp {
    /// Insert the template, or replace the one under the same key.
    Define,
    /// Remove the template.
    Withdraw,
}

/// A template definition or removal that arrives beside the frames.
#[derive(Clone, Debug, PartialEq, Eq)]
pub struct TemplateUpdate {
    pub template_id: u16,
    pub observation_domain: u32,
    pub fields: Vec<FieldSpec>,
    pub op: TemplateOp,
}

/// The value of a `TemplateUpdate`.
pub struct TemplateUpdateView {
    pub template_id: u16,
    pub observation_domain: u32,
    pub fields: Seq<FieldSpecView>,
    pub op: TemplateOp,
}

impl View for TemplateUpdate {
    type V = TemplateUpdateView;

    open spec fn view(&self) -> TemplateUpdateView {
        TemplateUpdateView {
            template_id: self.template_id,
            observation_domain: self.observation_domain,
            fields: views(self.fields@),
            op: self.op,
        }
    }
}

/// One decoded counter: the name its field is bound to, and its value.
#[derive(Clone, Debug, PartialEq, Eq)]
pub struct Counter {
    pub name: String,
    pub value: u64,
}

/// The value of a `Counter`.
pub struct CounterView {
    pub name: Seq<char>,
    pub value: u64,
}

impl View for Counter {
    type V = CounterView;

    open spec fn view(&self) -> CounterView {
        CounterView { name: self.name@, value: self.value }
    }
}

/// The counters of one data record, with the frame and the template
/// definition they were decoded under. The counters stand in the order of
/// the template's fields.
#[derive(Clone, Debug, PartialEq, Eq)]
pub struct StatisticsRecord {
    pub observation_domain: u32,
    pub template_id: u16,
    pub template_revision: u64,
    pub export_time: u32,
    pub sequence_number: u32,
    pub counters: Vec<Counter>,
}

/// The value of a `StatisticsRecord`.
pub struct RecordView {
    pub observation_domain: u32,
    pub template_id: u16,
    pub template_revision: u64,
    pub export_time: u32,
    pub sequence_number: u32,
    pub counters: Seq<CounterView>,
}

impl View for StatisticsRecord {
    type V = RecordView;

    open spec fn view(&self) -> RecordView {
        RecordView {
            observation_domain: self.observation_domain,
            template_id: self.template_id,
            template_revision: self.template_revision,
            export_time: self.export_time,
            sequence_number: self.sequence_number,
            counters: views(self.counters@),
        }
    }
}

/// The value that `name` is bound to in `counters`: that of the last
/// counter of that name.
pub open spec fn counter_named(counters: Seq<CounterView>, name: Seq<char>) -> Option<u64>
    decreases counters.len(),
{
    if counters.len() == 0 {
        None
    } else if counters.last().name == name {
        Some(counters.last().value)
    } else {
        counter_named(counters.drop_last(), name)
    }
}

impl StatisticsRecord {
    /// The value bound to `name` in this record, if any.
    pub fn counter(&self, name: &String) -> (value: Option<u64>)
        ensures
            value == counter_named(self@.counters, name@),
    {
        let mut i: usize = self.counters.len();
        assert(self@.counters.take(i as int) =~= self@.counters);
        while i > 0
            invariant
                i <= self.counters@.len(),
                counter_named(self@.counters, name@) == counter_named(
                    self@.counters.take(i as int),
                    name@,
                ),
            decreases i,
        {
            proof {
                let head = self@.counters.take(i as int);
                assert(head.drop_last() =~= self@.counters.take(i - 1));
                assert(head.last() == self.counters@[i - 1]@);
            }
            i -= 1;
            if self.counters[i].name == *name {
                return Some(self.counters[i].value);
            }
        }
        proof {
            assert(self@.counters.take(0).len() == 0);
        }
        None
    }
}

} // verus!
