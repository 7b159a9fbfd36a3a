//! The narrative context: a nested, string-keyed store of the values that
//! placeholders resolve to.
//!
//! The context is built once, before interpolation begins, by whatever loads
//! the project's variable file; interpolation only reads it.  Lookup walks a
//! dotted path component by component; a missing key, or a non-object met
//! before the path is exhausted, is a miss, not an error.

use vstd::prelude::*;

verus! {

/// One value of the context: a string, a number, a boolean, or a nested
/// object of named values.
///
/// A number is held as its canonical decimal rendering, produced at the
/// boundary that loads the context; the interpolator only ever copies that
/// rendering into resolved text, so nothing else of the number is kept.
#[derive(Debug, PartialEq)]
pub enum Data {
    String(String),
    Number(String),
    Boolean(bool),
    Object(Vec<(String, Data)>),
}

/// The first value bound to `key` among `entries`, if any.
pub open spec fn entries_get(entries: Seq<(String, Data)>, key: Seq<char>) -> Option<Data>
    decreases entries.len(),
{
    if entries.len() == 0 {
        None
    } else if entries[0].0@ == key {
        Some(entries[0].1)
    } else {
        entries_get(entries.drop_first(), key)
    }
}

/// Resolution of `path[i..]` downward from `d`: each remaining component
/// must select a key of an object; a value reached with the path exhausted
/// is the result.
pub open spec fn data_lookup(d: Data, path: Seq<Seq<char>>, i: int) -> Option<Data>
    decreases path.len() - i,
{
    if i >= path.len() {
        Some(d)
    } else {
        match d {
            Data::Object(entries) => match entries_get(entries@, path[i]) {
                Some(v) => data_lookup(v, path, i + 1),
                None => None,
            },
            _ => None,
        }
    }
}

/// The text a value contributes when a placeholder resolves to it: a string
/// verbatim, a number's decimal rendering, `true` or `false` for a boolean,
/// and a fixed marker for an object, which is not meant to be interpolated
/// as leaf text.
pub open spec fn data_text(d: Data) -> Seq<char> {
    match d {
        Data::String(s) => s@,
        Data::Number(n) => n@,
        Data::Boolean(b) => if b {
            "true"@
        } else {
            "false"@
        },
        Data::Object(_) => "[object]"@,
    }
}

impl Data {
    /// Renders the value as the text a resolved placeholder contributes.
    pub fn render(&self) -> (r: String)
        ensures
            r@ == data_text(*self),
    {
        match self {
            Data::String(s) => s.clone(),
            Data::Number(n) => n.clone(),
            Data::Boolean(b) => if *b {
                "true".to_owned()
            } else {
                "false".to_owned()
            },
            Data::Object(_) => "[object]".to_owned(),
        }
    }
}

/// The context itself: a root object mapping variable names to values.
///
/// # Examples
/// ```
/// use makinilya::context::{Context, Data};
///
/// let mut variables: Vec<(String, Data)> = Vec::new();
/// variables.push(("main_character_name".to_owned(), Data::String("Alyssa".to_owned())));
///
/// let context = Context { variables };
/// ```
#[derive(Debug, PartialEq)]
pub struct Context {
    pub variables: Vec<(String, Data)>,
}

/// Resolution of a dotted path against the context's root object.
pub open spec fn context_lookup(ctx: Context, path: Seq<Seq<char>>) -> Option<Data> {
    if path.len() == 0 {
        None
    } else {
        match entries_get(ctx.variables@, path[0]) {
            Some(v) => data_lookup(v, path, 1),
            None => None,
        }
    }
}

fn entries_find<'a>(entries: &'a Vec<(String, Data)>, key: &String) -> (r: Option<&'a Data>)
    ensures
        entries_get(entries@, key@) matches Some(d) ==> r matches Some(v) && *v == d,
        entries_get(entries@, key@) is None ==> r is None,
{
    let mut i: usize = 0;
    proof {
        assert(entries@.skip(0) =~= entries@);
    }
    while i < entries.len()
        invariant
            i <= entries@.len(),
            entries_get(entries@, key@) == entries_get(entries@.skip(i as int), key@),
        decreases entries@.len() - i,
    {
        if entries[i].0 == *key {
            return Some(&entries[i].1);
        }
        i = i + 1;
        proof {
            assert(entries@.skip(i - 1).drop_first() =~= entries@.skip(i as int));
        }
    }
    None
}

impl Context {
    /// An empty context, in which every lookup misses.
    pub fn new() -> (r: Self)
        ensures
            r.variables@.len() == 0,
    {
        Self { variables: Vec::new() }
    }

    /// The root mapping.
    pub fn variables(&self) -> (r: &Vec<(String, Data)>)
        ensures
            r == &self.variables,
    {
        &self.variables
    }

    /// Walks a dotted path down the context, step for step; `None` is a
    /// miss, never an error.
    pub fn get(&self, path: &Vec<String>) -> (r: Option<&Data>)
        ensures
            context_lookup(*self, path.deep_view()) matches Some(d) ==> (r matches Some(v) && *v
                == d),
            context_lookup(*self, path.deep_view()) is None ==> r is None,
    {
        if path.len() == 0 {
            return None;
        }
        let first = entries_find(&self.variables, &path[0]);
        let mut cur = match first {
            Some(d) => d,
            None => {
                return None;
            },
        };
        let mut i: usize = 1;
        while i < path.len()
            invariant
                1 <= i <= path@.len(),
                context_lookup(*self, path.deep_view()) == data_lookup(
                    *cur,
                    path.deep_view(),
                    i as int,
                ),
            decreases path@.len() - i,
        {
            match cur {
                Data::Object(entries) => {
                    match entries_find(entries, &path[i]) {
                        Some(d) => {
                            cur = d;
                        },
                        None => {
                            return None;
                        },
                    }
                },
                _ => {
                    return None;
                },
            }
            i = i + 1;
        }
        Some(cur)
    }
}

} // verus!
