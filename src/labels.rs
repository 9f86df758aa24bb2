use vstd::prelude::*;

verus! {

/// One `key=value` pair of an object's labels.
pub struct Label {
    pub key: String,
    pub value: String,
}

/// The operator of a set-based selector requirement.
#[derive(Clone, Copy, Debug, PartialEq, Eq, Structural)]
pub enum Operator {
    In,
    NotIn,
    Exists,
    DoesNotExist,
}

/// A set-based requirement: `key In {values}`, `key NotIn {values}`,
/// `key Exists` or `key DoesNotExist`.
pub struct Expression {
    pub key: String,
    pub operator: Operator,
    pub values: Vec<String>,
}

/// A label selector: a conjunction of exact matches and set-based requirements.
pub struct Selector {
    pub match_labels: Vec<Label>,
    pub match_expressions: Vec<Expression>,
}

/// The labels hold the pair `k=v`.
pub open spec fn has_label(labels: Seq<Label>, k: Seq<char>, v: Seq<char>) -> bool {
    exists|i: int| 0 <= i < labels.len() && labels[i].key@ == k && labels[i].value@ == v
}

/// The labels hold some value for `k`.
pub open spec fn has_key(labels: Seq<Label>, k: Seq<char>) -> bool {
    exists|i: int| 0 <= i < labels.len() && labels[i].key@ == k
}

/// `v` is one of `values`.
pub open spec fn in_values(values: Seq<String>, v: Seq<char>) -> bool {
    exists|j: int| 0 <= j < values.len() && values[j]@ == v
}

/// The labels hold a value for `k` that is one of `values`.
pub open spec fn has_key_in(labels: Seq<Label>, k: Seq<char>, values: Seq<String>) -> bool {
    exists|i: int| 0 <= i < labels.len() && labels[i].key@ == k && in_values(values, labels[i].value@)
}

/// What a set-based requirement asks of a label set.
pub open spec fn expression_holds(e: Expression, labels: Seq<Label>) -> bool {
    match e.operator {
        Operator::In => has_key_in(labels, e.key@, e.values@),
        Operator::NotIn => !has_key_in(labels, e.key@, e.values@),
        Operator::Exists => has_key(labels, e.key@),
        Operator::DoesNotExist => !has_key(labels, e.key@),
    }
}

/// A selector matches a label set when every exact pair is present and every
/// set-based requirement holds.
pub open spec fn selector_matches(sel: Selector, labels: Seq<Label>) -> bool {
    &&& forall|j: int|
        0 <= j < sel.match_labels.len() ==> #[trigger] has_label(
            labels,
            sel.match_labels@[j].key@,
            sel.match_labels@[j].value@,
        )
    &&& forall|j: int|
        0 <= j < sel.match_expressions.len() ==> #[trigger] expression_holds(
            sel.match_expressions@[j],
            labels,
        )
}

/// Whether the labels hold the pair `k=v`.
pub fn contains_label(labels: &Vec<Label>, k: &String, v: &String) -> (r: bool)
    ensures
        r == has_label(labels@, k@, v@),
{
    let mut i: usize = 0;
    while i < labels.len()
        invariant
            0 <= i <= labels.len(),
            forall|m: int| 0 <= m < i ==> !(labels@[m].key@ == k@ && labels@[m].value@ == v@),
        decreases labels.len() - i,
    {
        if labels[i].key == *k && labels[i].value == *v {
            return true;
        }
        i += 1;
    }
    false
}

/// Whether the labels hold some value for `k`.
pub fn contains_key(labels: &Vec<Label>, k: &String) -> (r: bool)
    ensures
        r == has_key(labels@, k@),
{
    let mut i: usize = 0;
    while i < labels.len()
        invariant
            0 <= i <= labels.len(),
            forall|m: int| 0 <= m < i ==> labels@[m].key@ != k@,
        decreases labels.len() - i,
    {
        if labels[i].key == *k {
            return true;
        }
        i += 1;
    }
    false
}

/// Whether `v` is one of `values`.
pub fn contains_value(values: &Vec<String>, v: &String) -> (r: bool)
    ensures
        r == in_values(values@, v@),
{
    let mut j: usize = 0;
    while j < values.len()
        invariant
            0 <= j <= values.len(),
            forall|m: int| 0 <= m < j ==> values@[m]@ != v@,
        decreases values.len() - j,
    {
        if values[j] == *v {
            return true;
        }
        j += 1;
    }
    false
}

/// Whether the labels hold a value for `k` that is one of `values`.
pub fn contains_key_in(labels: &Vec<Label>, k: &String, values: &Vec<String>) -> (r: bool)
    ensures
        r == has_key_in(labels@, k@, values@),
{
    let mut i: usize = 0;
    while i < labels.len()
        invariant
            0 <= i <= labels.len(),
            forall|m: int|
                0 <= m < i ==> !(labels@[m].key@ == k@ && in_values(values@, labels@[m].value@)),
        decreases labels.len() - i,
    {
        if labels[i].key == *k && contains_value(values, &labels[i].value) {
            return true;
        }
        i += 1;
    }
    false
}

impl Expression {
    /// Whether this requirement holds of the labels.
    pub fn holds(&self, labels: &Vec<Label>) -> (r: bool)
        ensures
            r == expression_holds(*self, labels@),
    {
        match self.operator {
            Operator::In => contains_key_in(labels, &self.key, &self.values),
            Operator::NotIn => !contains_key_in(labels, &self.key, &self.values),
            Operator::Exists => contains_key(labels, &self.key),
            Operator::DoesNotExist => !contains_key(labels, &self.key),
        }
    }
}

impl Selector {
    /// Whether the selector matches the labels.
    pub fn matches(&self, labels: &Vec<Label>) -> (r: bool)
        ensures
            r == selector_matches(*self, labels@),
    {
        let mut j: usize = 0;
        while j < self.match_labels.len()
            invariant
                0 <= j <= self.match_labels.len(),
                forall|m: int|
                    0 <= m < j ==> #[trigger] has_label(
                        labels@,
                        self.match_labels@[m].key@,
                        self.match_labels@[m].value@,
                    ),
            decreases self.match_labels.len() - j,
        {
            if !contains_label(labels, &self.match_labels[j].key, &self.match_labels[j].value) {
                return false;
            }
            j += 1;
        }
        let mut e: usize = 0;
        while e < self.match_expressions.len()
            invariant
                0 <= e <= self.match_expressions.len(),
                forall|m: int|
                    0 <= m < self.match_labels.len() ==> #[trigger] has_label(
                        labels@,
                        self.match_labels@[m].key@,
                        self.match_labels@[m].value@,
                    ),
                forall|m: int|
                    0 <= m < e ==> #[trigger] expression_holds(self.match_expressions@[m], labels@),
            decreases self.match_expressions.len() - e,
        {
            if !self.match_expressions[e].holds(labels) {
                return false;
            }
            e += 1;
        }
        true
    }
}

} // verus!
