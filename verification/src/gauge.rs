//! Gauge builders: the name, help text and label names of a gauge
//! before it is registered.

use vstd::prelude::*;
use crate::names::owned_label_names;

verus! {

/// Gauge metric builder.
pub struct GaugeBuilder {
    name: String,
    help: String,
}

impl View for GaugeBuilder {
    /// The name and help text.
    type V = (Seq<char>, Seq<char>);

    closed spec fn view(&self) -> (Seq<char>, Seq<char>) {
        (self.name@, self.help@)
    }
}

impl GaugeBuilder {
    /// A builder for a gauge named `name` with help text `help`.
    pub fn new(name: &str, help: &str) -> (b: Self)
        ensures
            b@ == (name@, help@),
    {
        GaugeBuilder { name: name.to_owned(), help: help.to_owned() }
    }

    /// The metric name.
    pub fn name(&self) -> (s: &str)
        ensures
            s@ == self@.0,
    {
        self.name.as_str()
    }

    /// The help text.
    pub fn help(&self) -> (s: &str)
        ensures
            s@ == self@.1,
    {
        self.help.as_str()
    }
}

/// Gauge-with-labels builder.
pub struct GaugeVecBuilder {
    name: String,
    help: String,
    label_names: Vec<String>,
}

impl View for GaugeVecBuilder {
    /// The name, help text and label names.
    type V = (Seq<char>, Seq<char>, Seq<Seq<char>>);

    closed spec fn view(&self) -> (Seq<char>, Seq<char>, Seq<Seq<char>>) {
        (self.name@, self.help@, self.label_names@.map_values(|s: String| s@))
    }
}

impl GaugeVecBuilder {
    /// A builder for a labelled gauge named `name` with help text `help`
    /// and no label names yet.
    pub fn new(name: &str, help: &str) -> (b: Self)
        ensures
            b@ == (name@, help@, Seq::<Seq<char>>::empty()),
    {
        let b = GaugeVecBuilder {
            name: name.to_owned(),
            help: help.to_owned(),
            label_names: Vec::new(),
        };
        proof {
            assert(b@.2 =~= Seq::<Seq<char>>::empty());
        }
        b
    }

    /// Sets the label names, replacing any set before.
    pub fn labels(self, labels: &[&str]) -> (b: Self)
        ensures
            b@ == (self@.0, self@.1, labels@.map_values(|s: &str| s@)),
    {
        GaugeVecBuilder { label_names: owned_label_names(labels), ..self }
    }

    /// The metric name.
    pub fn name(&self) -> (s: &str)
        ensures
            s@ == self@.0,
    {
        self.name.as_str()
    }

    /// The help text.
    pub fn help(&self) -> (s: &str)
        ensures
            s@ == self@.1,
    {
        self.help.as_str()
    }

    /// The label names, in order.
    pub fn label_names(&self) -> (names: &Vec<String>)
        ensures
            names@.map_values(|s: String| s@) == self@.2,
    {
        &self.label_names
    }
}

} // verus!
