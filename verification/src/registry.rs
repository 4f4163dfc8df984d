//! The template function registry: a name-to-behaviour map. The behaviours
//! form a closed set of built-in operations; registering binds a tag name to
//! one of them, and the parser and renderer consult the registry by name.

use vstd::prelude::*;

verus! {

use vstd::string::StringExecFns;
use crate::strmap::assoc_get;
use crate::strmap::assoc_put;
use crate::strmap::lemma_deep_view_push;
use crate::strmap::str_eq;

/// The built-in template function behaviours.
#[derive(Clone, Copy, PartialEq, Eq, Structural)]
pub enum Builtin {
    Uppercase,
    Lowercase,
    Date,
    Datetime,
    DatetimePretty,
    DateHtml,
    TagsHtml,
    CategoriesHtml,
    RelativeUrl,
    ImageHtml,
    ListMd,
    JsonList,
}

impl View for Builtin {
    type V = Builtin;

    open spec fn view(&self) -> Builtin {
        *self
    }
}

impl DeepView for Builtin {
    type V = Builtin;

    open spec fn deep_view(&self) -> Builtin {
        *self
    }
}

/// The bindings of the default registry, in registration order.
pub open spec fn spec_default_registry() -> Seq<(Seq<char>, Builtin)> {
    seq![
        ("uppercase"@, Builtin::Uppercase),
        ("lowercase"@, Builtin::Lowercase),
        ("date"@, Builtin::Date),
        ("datetime"@, Builtin::Datetime),
        ("datetime-pretty"@, Builtin::DatetimePretty),
        ("date_html"@, Builtin::DateHtml),
        ("tags_html"@, Builtin::TagsHtml),
        ("categories_html"@, Builtin::CategoriesHtml),
        ("relative-url"@, Builtin::RelativeUrl),
        ("image_html"@, Builtin::ImageHtml),
        ("list_md"@, Builtin::ListMd),
        ("json_list"@, Builtin::JsonList),
    ]
}

/// A name-to-behaviour map with deterministic entry order.
pub struct FunctionRegistry {
    entries: Vec<(String, Builtin)>,
}

impl View for FunctionRegistry {
    type V = Seq<(Seq<char>, Builtin)>;

    closed spec fn view(&self) -> Seq<(Seq<char>, Builtin)> {
        self.entries.deep_view()
    }
}

impl FunctionRegistry {
    /// A registry with no bindings.
    pub fn new() -> (r: FunctionRegistry)
        ensures
            r@ == Seq::<(Seq<char>, Builtin)>::empty(),
    {
        let r = FunctionRegistry { entries: Vec::new() };
        assert(r@ =~= Seq::<(Seq<char>, Builtin)>::empty());
        r
    }

    /// The registry holding all built-ins under their standard names.
    pub fn with_default_funcs() -> (r: FunctionRegistry)
        ensures
            r@ == spec_default_registry(),
    {
        let mut entries: Vec<(String, Builtin)> = Vec::new();
        entries.push((String::from_str("uppercase"), Builtin::Uppercase));
        entries.push((String::from_str("lowercase"), Builtin::Lowercase));
        entries.push((String::from_str("date"), Builtin::Date));
        entries.push((String::from_str("datetime"), Builtin::Datetime));
        entries.push((String::from_str("datetime-pretty"), Builtin::DatetimePretty));
        entries.push((String::from_str("date_html"), Builtin::DateHtml));
        entries.push((String::from_str("tags_html"), Builtin::TagsHtml));
        entries.push((String::from_str("categories_html"), Builtin::CategoriesHtml));
        entries.push((String::from_str("relative-url"), Builtin::RelativeUrl));
        entries.push((String::from_str("image_html"), Builtin::ImageHtml));
        entries.push((String::from_str("list_md"), Builtin::ListMd));
        entries.push((String::from_str("json_list"), Builtin::JsonList));
        let r = FunctionRegistry { entries };
        assert(r@ =~= spec_default_registry());
        r
    }

    /// Binds `name` to a behaviour, replacing any earlier binding.
    pub fn register_function(&mut self, name: String, f: Builtin)
        ensures
            final(self)@ == assoc_put(old(self)@, name@, f),
    {
        let ghost gk = name@;
        let n = self.entries.len();
        let mut i: usize = 0;
        while i < n
            invariant
                n == self@.len(),
                n == self.entries.len(),
                i <= n,
                *self == *old(self),
                name@ == gk,
                forall|j: int| 0 <= j < i ==> self@[j].0 != gk,
            decreases n - i,
        {
            assert(self@[i as int].0 == self.entries@[i as int].0.deep_view());
            if str_eq(self.entries[i].0.as_str(), name.as_str()) {
                self.entries[i] = (name, f);
                proof {
                    crate::strmap::lemma_put_at(old(self)@, gk, f, i as int);
                    assert(self@ =~= old(self)@.update(i as int, (gk, f)));
                }
                return ;
            }
            i += 1;
        }
        let ghost pre = self.entries;
        let ghost gx = (name, f);
        self.entries.push((name, f));
        proof {
            lemma_deep_view_push(pre, self.entries, gx);
            crate::strmap::lemma_put_append(old(self)@, gk, f);
            assert(self@ =~= old(self)@ + seq![(gk, f)]);
        }
    }

    /// The behaviour bound to `name`, if any.
    pub fn lookup(&self, name: &str) -> (r: Option<Builtin>)
        ensures
            r == assoc_get(self@, name@),
    {
        let n = self.entries.len();
        let mut i: usize = 0;
        assert(self@.subrange(0, n as int) =~= self@);
        while i < n
            invariant
                n == self@.len(),
                n == self.entries.len(),
                i <= n,
                assoc_get(self@, name@) == assoc_get(self@.subrange(i as int, n as int), name@),
            decreases n - i,
        {
            let ghost tail = self@.subrange(i as int, n as int);
            assert(tail[0] == self@[i as int]);
            if str_eq(self.entries[i].0.as_str(), name) {
                return Some(self.entries[i].1);
            }
            assert(tail.drop_first() =~= self@.subrange(i + 1, n as int));
            i += 1;
        }
        assert(self@.subrange(n as int, n as int) =~= Seq::<(Seq<char>, Builtin)>::empty());
        None
    }

    /// Whether `name` is a registered function name.
    pub fn contains(&self, name: &str) -> (r: bool)
        ensures
            r == (assoc_get(self@, name@) is Some),
    {
        self.lookup(name).is_some()
    }
}

} // verus!
