//! What generation yields: a pattern that takes a value apart and the
//! arguments of the expression that renders it.

use vstd::prelude::*;

verus! {

/// One slot of a pattern: the name of the field, and whether the field is
/// bound under that name or discarded.
#[derive(Clone, Debug, PartialEq, Eq)]
pub struct Binding {
    pub name: String,
    pub bound: bool,
}

/// The mathematical content of a [`Binding`].
pub struct BindingView {
    pub name: Seq<char>,
    pub bound: bool,
}

impl View for Binding {
    type V = BindingView;

    open spec fn view(&self) -> BindingView {
        BindingView { name: self.name@, bound: self.bound }
    }
}

/// One rendered value: the bound field `name`, put through its own `format`
/// where it has one; with `concat`, the field is iterated and each element
/// is rendered so, with nothing between them.
#[derive(Clone, Debug, PartialEq, Eq)]
pub struct Arg {
    pub name: String,
    pub format: Option<String>,
    pub concat: bool,
}

/// The mathematical content of an [`Arg`].
pub struct ArgView {
    pub name: Seq<char>,
    pub format: Option<Seq<char>>,
    pub concat: bool,
}

impl View for Arg {
    type V = ArgView;

    open spec fn view(&self) -> ArgView {
        ArgView {
            name: self.name@,
            format: match self.format {
                Some(f) => Some(f@),
                None => None,
            },
            concat: self.concat,
        }
    }
}

/// A generated fragment.
#[derive(Clone, Debug, PartialEq, Eq)]
pub enum Fragment {
    /// Render the whole value through `format`, in which it is the
    /// placeholder `self`. Nothing is taken apart.
    Whole { format: String },
    /// `prefix { pattern } midfix { render(format, name = value, ..) }`:
    /// every argument is substituted under its field's name.
    Named { prefix: String, midfix: String, pattern: Vec<Binding>, format: String, args: Vec<Arg> },
    /// `let Self { pattern } = self; render("{0}", arg)`: the one field that
    /// is not discarded, rendered alone.
    Single { pattern: Vec<Binding>, arg: Arg },
    /// `prefix ( pattern ) midfix render(format, values..)`: the arguments
    /// are substituted by position.
    Positional {
        prefix: String,
        midfix: String,
        pattern: Vec<Binding>,
        format: String,
        args: Vec<Arg>,
    },
    /// `prefix midfix render(format, "name")`: the one substitution is the
    /// literal text `name`.
    Unit { prefix: String, midfix: String, format: String, name: String },
}

/// The mathematical content of a [`Fragment`].
pub enum FragmentView {
    Whole { format: Seq<char> },
    Named {
        prefix: Seq<char>,
        midfix: Seq<char>,
        pattern: Seq<BindingView>,
        format: Seq<char>,
        args: Seq<ArgView>,
    },
    Single { pattern: Seq<BindingView>, arg: ArgView },
    Positional {
        prefix: Seq<char>,
        midfix: Seq<char>,
        pattern: Seq<BindingView>,
        format: Seq<char>,
        args: Seq<ArgView>,
    },
    Unit { prefix: Seq<char>, midfix: Seq<char>, format: Seq<char>, name: Seq<char> },
}

/// The contents of a run of bindings.
pub open spec fn bindings(pattern: Seq<Binding>) -> Seq<BindingView> {
    pattern.map_values(|b: Binding| b@)
}

/// The contents of a run of arguments.
pub open spec fn arguments(args: Seq<Arg>) -> Seq<ArgView> {
    args.map_values(|a: Arg| a@)
}

impl View for Fragment {
    type V = FragmentView;

    open spec fn view(&self) -> FragmentView {
        match *self {
            Fragment::Whole { format } => FragmentView::Whole { format: format@ },
            Fragment::Named { prefix, midfix, pattern, format, args } => FragmentView::Named {
                prefix: prefix@,
                midfix: midfix@,
                pattern: bindings(pattern@),
                format: format@,
                args: arguments(args@),
            },
            Fragment::Single { pattern, arg } => FragmentView::Single {
                pattern: bindings(pattern@),
                arg: arg@,
            },
            Fragment::Positional { prefix, midfix, pattern, format, args } => FragmentView::Positional {
                prefix: prefix@,
                midfix: midfix@,
                pattern: bindings(pattern@),
                format: format@,
                args: arguments(args@),
            },
            Fragment::Unit { prefix, midfix, format, name } => FragmentView::Unit {
                prefix: prefix@,
                midfix: midfix@,
                format: format@,
                name: name@,
            },
        }
    }
}

} // verus!
