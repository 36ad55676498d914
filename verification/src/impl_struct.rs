//! The shape-driven generator: from a shape and the annotations of its
//! scope to the fragment that renders a value of that shape.

use vstd::prelude::*;
use crate::attrs::{resolve, table, Attribute, Attrs, Entries, Report};
use crate::error::{Error, Span};
use crate::fragment::{arguments, bindings, Arg, ArgView, Binding, BindingView, Fragment, FragmentView};
use crate::shape::{Fields, Ident, NamedField, UnnamedField};
use crate::text::{
    comma_pieces,
    decimal,
    index_text,
    lowercase,
    lowercased,
    parse_index,
    parsed_index,
    debug_quote,
    quoted,
    same,
    split_commas,
    texts,
    trim,
    trimmed,
};

verus! {

/// A table from key to the place and text of its value.
pub type Table = Map<Seq<char>, (Span, Seq<char>)>;

/// The keys recognized in the scope of a shape with named fields.
pub open spec fn named_keys() -> Seq<&'static str> {
    seq!["format", "ignore", "mode"]
}

/// The keys recognized on a named field.
pub open spec fn named_field_keys() -> Seq<&'static str> {
    seq!["format", "mode"]
}

/// The keys recognized in the scope of a shape with positional fields.
pub open spec fn unnamed_keys() -> Seq<&'static str> {
    seq!["format", "ignore"]
}

/// The keys recognized on a positional field, and in the scope of a shape
/// without fields.
pub open spec fn format_keys() -> Seq<&'static str> {
    seq!["format"]
}

/// The value of `key` in a table, if it has one.
pub open spec fn value_of(t: Table, key: Seq<char>) -> Option<Seq<char>> {
    if t.contains_key(key) {
        Some(t[key].1)
    } else {
        None
    }
}

/// The value of `key` in a table, or `default`.
pub open spec fn value_or(t: Table, key: Seq<char>, default: Seq<char>) -> Seq<char> {
    if t.contains_key(key) {
        t[key].1
    } else {
        default
    }
}

/// The entries of an `ignore` value: its comma-separated pieces, trimmed.
/// Without a value there is none.
pub open spec fn ignore_list(value: Option<Seq<char>>) -> Seq<Seq<char>> {
    match value {
        None => Seq::empty(),
        Some(v) => comma_pieces(v).map_values(|p: Seq<char>| trimmed(p)),
    }
}

/// The indices that the entries of an `ignore` value stand for, from entry
/// `from` on, after those in `acc`; or the complaint about the first entry
/// that is no index.
pub open spec fn ignore_indices(entries: Seq<Seq<char>>, from: int, acc: Seq<usize>) -> Result<
    Seq<usize>,
    Seq<char>,
>
    decreases entries.len() - from,
{
    if from < 0 || from >= entries.len() {
        Ok(acc)
    } else {
        match parsed_index(entries[from]) {
            Err(e) => Err(e),
            Ok(n) => ignore_indices(entries, from + 1, acc.push(n)),
        }
    }
}

/// The entries of a scope that lies under several annotation lists, the
/// outermost first: each list is resolved by itself, from list `from` on,
/// and laid over what came before.
pub open spec fn merged(
    name: Seq<char>,
    keys: Seq<&str>,
    acc: Entries,
    lists: Seq<Seq<Attribute>>,
    from: int,
) -> Result<Entries, Report>
    decreases lists.len() - from,
{
    if from < 0 || from >= lists.len() {
        Ok(acc)
    } else {
        match resolve(name, keys, lists[from]) {
            Err(e) => Err(e),
            Ok(es) => merged(name, keys, acc + es, lists, from + 1),
        }
    }
}

/// The rendered value of a named field whose own annotations are `own`.
pub open spec fn named_arg(name: Seq<char>, own: Table) -> Result<ArgView, Report> {
    if !own.contains_key("mode"@) {
        Ok(ArgView { name, format: value_of(own, "format"@), concat: false })
    } else if own["mode"@].1 == "iter_concat"@ {
        Ok(ArgView { name, format: value_of(own, "format"@), concat: true })
    } else {
        Err(seq![(own["mode"@].0, "Unknown mode Some("@ + quoted(own["mode"@].1) + ")"@)])
    }
}

/// Pattern and arguments of the named fields from index `from` on, after
/// those already gathered. The annotations of every field are resolved,
/// also those of a discarded one; the first failure ends the walk.
pub open spec fn named_parts(
    marker: Seq<char>,
    ignore: Seq<Seq<char>>,
    fields: Seq<NamedField>,
    from: int,
    pattern: Seq<BindingView>,
    args: Seq<ArgView>,
) -> Result<(Seq<BindingView>, Seq<ArgView>), Report>
    decreases fields.len() - from,
{
    if from < 0 || from >= fields.len() {
        Ok((pattern, args))
    } else {
        let field = fields[from];
        match resolve(marker, named_field_keys(), field.attrs@) {
            Err(e) => Err(e),
            Ok(es) => if ignore.contains(field.name@) {
                named_parts(
                    marker,
                    ignore,
                    fields,
                    from + 1,
                    pattern.push(BindingView { name: field.name@, bound: false }),
                    args,
                )
            } else {
                match named_arg(field.name@, table(es)) {
                    Err(e) => Err(e),
                    Ok(arg) => named_parts(
                        marker,
                        ignore,
                        fields,
                        from + 1,
                        pattern.push(BindingView { name: field.name@, bound: true }),
                        args.push(arg),
                    ),
                }
            },
        }
    }
}

/// The name under which the field at position `i` is bound.
pub open spec fn position_name(i: usize) -> Seq<char> {
    "f"@ + decimal(i)
}

/// Pattern and arguments of the positional fields from index `from` on,
/// after those already gathered.
pub open spec fn unnamed_parts(
    marker: Seq<char>,
    ignore: Seq<usize>,
    fields: Seq<UnnamedField>,
    from: int,
    pattern: Seq<BindingView>,
    args: Seq<ArgView>,
) -> Result<(Seq<BindingView>, Seq<ArgView>), Report>
    decreases fields.len() - from,
{
    if from < 0 || from >= fields.len() {
        Ok((pattern, args))
    } else {
        let name = position_name(from as usize);
        match resolve(marker, format_keys(), fields[from].attrs@) {
            Err(e) => Err(e),
            Ok(es) => if ignore.contains(from as usize) {
                unnamed_parts(
                    marker,
                    ignore,
                    fields,
                    from + 1,
                    pattern.push(BindingView { name, bound: false }),
                    args,
                )
            } else {
                unnamed_parts(
                    marker,
                    ignore,
                    fields,
                    from + 1,
                    pattern.push(BindingView { name, bound: true }),
                    args.push(ArgView { name, format: value_of(table(es), "format"@), concat: false }),
                )
            },
        }
    }
}

/// The mathematical content of a [`StructGen`]: the identifier and its
/// place, the annotation lists (outermost first), the marker, and the text
/// before and after the pattern.
pub struct Scope {
    pub ident: Seq<char>,
    pub span: Span,
    pub lists: Seq<Seq<Attribute>>,
    pub marker: Seq<char>,
    pub prefix: Seq<char>,
    pub midfix: Seq<char>,
}

impl Scope {
    /// The entries of the shape's scope under the recognized `keys`.
    pub open spec fn scope_entries(&self, keys: Seq<&str>) -> Result<Entries, Report> {
        merged(self.marker, keys, Seq::empty(), self.lists, 0)
    }

    /// What a shape with named fields generates.
    pub open spec fn named_fragment(&self, fields: Seq<NamedField>) -> Result<FragmentView, Report> {
        match self.scope_entries(named_keys()) {
            Err(e) => Err(e),
            Ok(es) => {
                let t = table(es);
                if t.contains_key("mode"@) {
                    if t["mode"@].1 == "self"@ {
                        Ok(FragmentView::Whole { format: value_or(t, "format"@, "{self}"@) })
                    } else {
                        Err(seq![(t["mode"@].0, "Unknown mode "@ + quoted(t["mode"@].1))])
                    }
                } else {
                    match named_parts(
                        self.marker,
                        ignore_list(value_of(t, "ignore"@)),
                        fields,
                        0,
                        Seq::empty(),
                        Seq::empty(),
                    ) {
                        Err(e) => Err(e),
                        Ok((pattern, args)) => if t.contains_key("format"@) {
                            Ok(
                                FragmentView::Named {
                                    prefix: self.prefix,
                                    midfix: self.midfix,
                                    pattern,
                                    format: t["format"@].1,
                                    args,
                                },
                            )
                        } else if args.len() == 1 {
                            Ok(FragmentView::Single { pattern, arg: args[0] })
                        } else {
                            Err(
                                seq![
                                    (
                                        self.span,
                                        "Missing #[format(...)] for struct with multiple fields"@,
                                    ),
                                ],
                            )
                        },
                    }
                }
            },
        }
    }

    /// What a shape with positional fields generates.
    pub open spec fn unnamed_fragment(&self, fields: Seq<UnnamedField>) -> Result<
        FragmentView,
        Report,
    > {
        match self.scope_entries(unnamed_keys()) {
            Err(e) => Err(e),
            Ok(es) => {
                let t = table(es);
                match ignore_indices(ignore_list(value_of(t, "ignore"@)), 0, Seq::empty()) {
                    Err(e) => Err(
                        seq![(t["ignore"@].0, "Failed to parse index in attribute ignore: "@ + e)],
                    ),
                    Ok(ignore) => match unnamed_parts(
                        self.marker,
                        ignore,
                        fields,
                        0,
                        Seq::empty(),
                        Seq::empty(),
                    ) {
                        Err(e) => Err(e),
                        Ok((pattern, args)) => Ok(
                            FragmentView::Positional {
                                prefix: self.prefix,
                                midfix: self.midfix,
                                pattern,
                                format: value_or(t, "format"@, "{}"@),
                                args,
                            },
                        ),
                    },
                }
            },
        }
    }

    /// What a shape without fields generates.
    pub open spec fn unit_fragment(&self) -> Result<FragmentView, Report> {
        match self.scope_entries(format_keys()) {
            Err(e) => Err(e),
            Ok(es) => Ok(
                FragmentView::Unit {
                    prefix: self.prefix,
                    midfix: self.midfix,
                    format: value_or(table(es), "format"@, "{}"@),
                    name: lowercased(self.ident),
                },
            ),
        }
    }

    /// What a shape generates.
    pub open spec fn fragment(&self, fields: Fields) -> Result<FragmentView, Report> {
        match fields {
            Fields::Named(named) => self.named_fragment(named@),
            Fields::Unnamed(unnamed) => self.unnamed_fragment(unnamed@),
            Fields::Unit => self.unit_fragment(),
        }
    }
}

/// The generator for one shape: the identifier of the type or variant, the
/// annotation lists above it (outermost first), the marker under which
/// annotations count, and the text that stands before and after the pattern.
pub struct StructGen<'a> {
    pub ident: &'a Ident,
    pub attrs: &'a [&'a [Attribute]],
    pub attr_name: &'a str,
    pub prefix: String,
    pub midfix: String,
}

impl<'a> View for StructGen<'a> {
    type V = Scope;

    open spec fn view(&self) -> Scope {
        Scope {
            ident: self.ident.name@,
            span: self.ident.span,
            lists: self.attrs@.map_values(|l: &[Attribute]| l@),
            marker: self.attr_name@,
            prefix: self.prefix@,
            midfix: self.midfix@,
        }
    }
}

impl<'a> StructGen<'a> {
    /// Generates the fragment for a shape, or reports the first failure.
    pub fn generate(&self, fields: &Fields) -> (r: Result<Fragment, Error>)
        requires
            self.attrs@.len() >= 1,
        ensures
            match self@.fragment(*fields) {
                Ok(f) => r is Ok && r->Ok_0@ == f,
                Err(e) => r is Err && r->Err_0@ == e,
            },
    {
        match fields {
            Fields::Named(named) => self.generate_named(named.as_slice()),
            Fields::Unnamed(unnamed) => self.generate_unnamed(unnamed.as_slice()),
            Fields::Unit => self.generate_unit(),
        }
    }

    /// Resolves the scope of the shape: the first annotation list in a fresh
    /// scope at the identifier, each further list laid over it.
    pub fn make_attrs(&self, keys: &'static [&'static str]) -> (r: Result<Attrs<'a>, Error>)
        requires
            self.attrs@.len() >= 1,
        ensures
            match self@.scope_entries(keys@) {
                Ok(es) => r is Ok && r->Ok_0.entries() == es && r->Ok_0.scope() == self.ident.span
                    && r->Ok_0.marker() == self.attr_name@,
                Err(e) => r is Err && r->Err_0@ == e,
            },
    {
        let ghost whole = self@.scope_entries(keys@);
        let mut a = match Attrs::new_with(self.ident.span, self.attrs[0], self.attr_name, keys) {
            Err(e) => {
                return Err(e);
            },
            Ok(a) => a,
        };
        assert(Seq::<(Seq<char>, Span, Seq<char>)>::empty() + a.entries() =~= a.entries());
        let mut i: usize = 1;
        while i < self.attrs.len()
            invariant
                1 <= i <= self.attrs.len(),
                a.scope() == self.ident.span,
                a.marker() == self.attr_name@,
                a.keys() == keys@,
                whole == self@.scope_entries(keys@),
                merged(self.attr_name@, keys@, a.entries(), self@.lists, i as int) == whole,
            decreases self.attrs.len() - i,
        {
            a = match a.to_merged(self.attrs[i]) {
                Err(e) => {
                    return Err(e);
                },
                Ok(next) => next,
            };
            i += 1;
        }
        Ok(a)
    }

    /// Generates for a shape with named fields.
    pub fn generate_named(&self, fields: &[NamedField]) -> (r: Result<Fragment, Error>)
        requires
            self.attrs@.len() >= 1,
        ensures
            match self@.named_fragment(fields@) {
                Ok(f) => r is Ok && r->Ok_0@ == f,
                Err(e) => r is Err && r->Err_0@ == e,
            },
    {
        let attrs = match self.make_attrs(named_keys_slice()) {
            Err(e) => {
                return Err(e);
            },
            Ok(a) => a,
        };
        let ignore = trimmed_pieces(attrs.opt("ignore"));
        match attrs.opt("mode") {
            Some(mode) => {
                if same(mode, "self") {
                    let format = String::from_str(attrs.get("format", "{self}"));
                    return Ok(Fragment::Whole { format });
                } else {
                    let mut message = String::from_str("Unknown mode ");
                    message.append(debug_quote(mode).as_str());
                    return Err(Error::new(attrs.span("mode"), message));
                }
            },
            None => {},
        }
        let ghost whole = named_parts(
            self.attr_name@,
            texts(ignore@),
            fields@,
            0,
            Seq::empty(),
            Seq::empty(),
        );
        let mut pattern: Vec<Binding> = Vec::new();
        let mut args: Vec<Arg> = Vec::new();
        assert(bindings(pattern@) =~= Seq::empty());
        assert(arguments(args@) =~= Seq::empty());
        let mut i: usize = 0;
        while i < fields.len()
            invariant
                i <= fields.len(),
                attrs.marker() == self.attr_name@,
                self@.scope_entries(named_keys()) == Ok::<Entries, Report>(attrs.entries()),
                !attrs@.contains_key("mode"@),
                texts(ignore@) == ignore_list(value_of(attrs@, "ignore"@)),
                whole == named_parts(
                    self.attr_name@,
                    texts(ignore@),
                    fields@,
                    0,
                    Seq::empty(),
                    Seq::empty(),
                ),
                named_parts(
                    self.attr_name@,
                    texts(ignore@),
                    fields@,
                    i as int,
                    bindings(pattern@),
                    arguments(args@),
                ) == whole,
            decreases fields.len() - i,
        {
            let field = &fields[i];
            let own = match attrs.to_new_with(field.span, field.attrs.as_slice(), named_field_keys_slice()) {
                Err(e) => {
                    return Err(e);
                },
                Ok(a) => a,
            };
            let ghost before = bindings(pattern@);
            let ghost args_before = arguments(args@);
            if holds(&ignore, field.name.as_str()) {
                pattern.push(Binding { name: field.name.clone(), bound: false });
                assert(bindings(pattern@) =~= before.push(
                    BindingView { name: field.name@, bound: false },
                ));
            } else {
                let format = match own.opt("format") {
                    Some(f) => Some(String::from_str(f)),
                    None => None,
                };
                let concat = match own.opt("mode") {
                    None => false,
                    Some(mode) => {
                        if same(mode, "iter_concat") {
                            true
                        } else {
                            let mut message = String::from_str("Unknown mode Some(");
                            message.append(debug_quote(mode).as_str());
                            message.append(")");
                            return Err(Error::new(own.span("mode"), message));
                        }
                    },
                };
                let arg = Arg { name: field.name.clone(), format, concat };
                assert(Ok::<ArgView, Report>(arg@) == named_arg(field.name@, own@));
                pattern.push(Binding { name: field.name.clone(), bound: true });
                args.push(arg);
                assert(bindings(pattern@) =~= before.push(
                    BindingView { name: field.name@, bound: true },
                ));
                assert(arguments(args@) =~= args_before.push(arg@));
            }
            i += 1;
        }
        match attrs.opt("format") {
            Some(format) => Ok(
                Fragment::Named {
                    prefix: self.prefix.clone(),
                    midfix: self.midfix.clone(),
                    pattern,
                    format: String::from_str(format),
                    args,
                },
            ),
            None => {
                if args.len() == 1 {
                    let arg = args.remove(0);
                    Ok(Fragment::Single { pattern, arg })
                } else {
                    Err(
                        Error::at(
                            self.ident.span,
                            "Missing #[format(...)] for struct with multiple fields",
                        ),
                    )
                }
            },
        }
    }

    /// Generates for a shape with positional fields.
    pub fn generate_unnamed(&self, fields: &[UnnamedField]) -> (r: Result<Fragment, Error>)
        requires
            self.attrs@.len() >= 1,
        ensures
            match self@.unnamed_fragment(fields@) {
                Ok(f) => r is Ok && r->Ok_0@ == f,
                Err(e) => r is Err && r->Err_0@ == e,
            },
    {
        let attrs = match self.make_attrs(unnamed_keys_slice()) {
            Err(e) => {
                return Err(e);
            },
            Ok(a) => a,
        };
        let entries = trimmed_pieces(attrs.opt("ignore"));
        let ignore = match parse_indices(&entries) {
            Err(e) => {
                let mut message = String::from_str("Failed to parse index in attribute ignore: ");
                message.append(e.as_str());
                return Err(Error::new(attrs.span("ignore"), message));
            },
            Ok(v) => v,
        };
        let ghost whole = unnamed_parts(
            self.attr_name@,
            ignore@,
            fields@,
            0,
            Seq::empty(),
            Seq::empty(),
        );
        let mut pattern: Vec<Binding> = Vec::new();
        let mut args: Vec<Arg> = Vec::new();
        assert(bindings(pattern@) =~= Seq::empty());
        assert(arguments(args@) =~= Seq::empty());
        let mut i: usize = 0;
        while i < fields.len()
            invariant
                i <= fields.len(),
                self@.scope_entries(unnamed_keys()) == Ok::<Entries, Report>(attrs.entries()),
                ignore_indices(ignore_list(value_of(attrs@, "ignore"@)), 0, Seq::empty()) == Ok::<
                    Seq<usize>,
                    Seq<char>,
                >(ignore@),
                whole == unnamed_parts(
                    self.attr_name@,
                    ignore@,
                    fields@,
                    0,
                    Seq::empty(),
                    Seq::empty(),
                ),
                unnamed_parts(
                    self.attr_name@,
                    ignore@,
                    fields@,
                    i as int,
                    bindings(pattern@),
                    arguments(args@),
                ) == whole,
            decreases fields.len() - i,
        {
            let field = &fields[i];
            let own = match Attrs::new_with(
                field.span,
                field.attrs.as_slice(),
                self.attr_name,
                format_keys_slice(),
            ) {
                Err(e) => {
                    return Err(e);
                },
                Ok(a) => a,
            };
            let mut name = String::from_str("f");
            name.append(index_text(i).as_str());
            let ghost before = bindings(pattern@);
            let ghost args_before = arguments(args@);
            if has_index(&ignore, i) {
                pattern.push(Binding { name, bound: false });
                assert(bindings(pattern@) =~= before.push(
                    BindingView { name: position_name(i), bound: false },
                ));
            } else {
                let format = match own.opt("format") {
                    Some(f) => Some(String::from_str(f)),
                    None => None,
                };
                let arg = Arg { name: name.clone(), format, concat: false };
                pattern.push(Binding { name, bound: true });
                args.push(arg);
                assert(bindings(pattern@) =~= before.push(
                    BindingView { name: position_name(i), bound: true },
                ));
                assert(arguments(args@) =~= args_before.push(arg@));
            }
            i += 1;
        }
        let format = String::from_str(attrs.get("format", "{}"));
        Ok(
            Fragment::Positional {
                prefix: self.prefix.clone(),
                midfix: self.midfix.clone(),
                pattern,
                format,
                args,
            },
        )
    }

    /// Generates for a shape without fields.
    pub fn generate_unit(&self) -> (r: Result<Fragment, Error>)
        requires
            self.attrs@.len() >= 1,
        ensures
            match self@.unit_fragment() {
                Ok(f) => r is Ok && r->Ok_0@ == f,
                Err(e) => r is Err && r->Err_0@ == e,
            },
    {
        let attrs = match self.make_attrs(format_keys_slice()) {
            Err(e) => {
                return Err(e);
            },
            Ok(a) => a,
        };
        let name = lowercase(self.ident.name.as_str());
        let format = String::from_str(attrs.get("format", "{}"));
        Ok(Fragment::Unit { prefix: self.prefix.clone(), midfix: self.midfix.clone(), format, name })
    }
}

fn named_keys_slice() -> (k: &'static [&'static str])
    ensures
        k@ == named_keys(),
{
    let k: &'static [&'static str] = &["format", "ignore", "mode"];
    assert(k@ =~= named_keys());
    k
}

fn named_field_keys_slice() -> (k: &'static [&'static str])
    ensures
        k@ == named_field_keys(),
{
    let k: &'static [&'static str] = &["format", "mode"];
    assert(k@ =~= named_field_keys());
    k
}

fn unnamed_keys_slice() -> (k: &'static [&'static str])
    ensures
        k@ == unnamed_keys(),
{
    let k: &'static [&'static str] = &["format", "ignore"];
    assert(k@ =~= unnamed_keys());
    k
}

fn format_keys_slice() -> (k: &'static [&'static str])
    ensures
        k@ == format_keys(),
{
    let k: &'static [&'static str] = &["format"];
    assert(k@ =~= format_keys());
    k
}

/// The entries of an `ignore` value: its pieces between commas, trimmed.
fn trimmed_pieces<'b>(value: Option<&'b str>) -> (r: Vec<&'b str>)
    ensures
        texts(r@) == ignore_list(
            match value {
                Some(v) => Some(v@),
                None => None,
            },
        ),
{
    let mut out: Vec<&'b str> = Vec::new();
    match value {
        None => {
            assert(texts(out@) =~= Seq::empty());
        },
        Some(v) => {
            let pieces = split_commas(v);
            let ghost goal = comma_pieces(v@).map_values(|p: Seq<char>| trimmed(p));
            let mut i: usize = 0;
            while i < pieces.len()
                invariant
                    i <= pieces.len(),
                    texts(pieces@) == comma_pieces(v@),
                    out@.len() == i,
                    forall|k: int| 0 <= k < i ==> (#[trigger] out@[k])@ == trimmed(comma_pieces(v@)[k]),
                decreases pieces.len() - i,
            {
                assert(texts(pieces@)[i as int] == pieces@[i as int]@);
                out.push(trim(pieces[i]));
                i += 1;
            }
            assert(texts(out@) =~= goal);
        },
    }
    out
}

/// Whether `name` is among the texts of `list`.
fn holds(list: &Vec<&str>, name: &str) -> (r: bool)
    ensures
        r == texts(list@).contains(name@),
{
    let mut i: usize = 0;
    while i < list.len()
        invariant
            i <= list.len(),
            forall|k: int| 0 <= k < i ==> texts(list@)[k] != name@,
        decreases list.len() - i,
    {
        if same(list[i], name) {
            assert(texts(list@)[i as int] == name@);
            return true;
        }
        i += 1;
    }
    false
}

/// Whether `index` is among `list`.
fn has_index(list: &Vec<usize>, index: usize) -> (r: bool)
    ensures
        r == list@.contains(index),
{
    let mut i: usize = 0;
    while i < list.len()
        invariant
            i <= list.len(),
            forall|k: int| 0 <= k < i ==> list@[k] != index,
        decreases list.len() - i,
    {
        if list[i] == index {
            return true;
        }
        i += 1;
    }
    false
}

/// Reads every entry as an index, up to the first that is none.
fn parse_indices(entries: &Vec<&str>) -> (r: Result<Vec<usize>, String>)
    ensures
        match ignore_indices(texts(entries@), 0, Seq::empty()) {
            Ok(v) => r is Ok && r->Ok_0@ == v,
            Err(e) => r is Err && r->Err_0@ == e,
        },
{
    let ghost whole = ignore_indices(texts(entries@), 0, Seq::empty());
    let mut out: Vec<usize> = Vec::new();
    let mut i: usize = 0;
    while i < entries.len()
        invariant
            i <= entries.len(),
            whole == ignore_indices(texts(entries@), 0, Seq::empty()),
            ignore_indices(texts(entries@), i as int, out@) == whole,
        decreases entries.len() - i,
    {
        match parse_index(entries[i]) {
            Err(e) => {
                return Err(e);
            },
            Ok(n) => {
                out.push(n);
            },
        }
        i += 1;
    }
    Ok(out)
}

} // verus!
