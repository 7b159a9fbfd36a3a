//! Small extension traits over std types, attuned to the library's use
//! cases.

use vstd::prelude::*;
use vstd::pervasive::cloned;
use vstd::string::StringExecFns;
use vstd::string::StrSliceExecFns;

verus! {

/// A run of characters with a comma written before every position, counted
/// from the right, that is a positive multiple of three: the first `i`
/// characters of `s`, so separated.
pub open spec fn grouped_prefix(s: Seq<char>, i: int) -> Seq<char>
    decreases i,
{
    if i <= 0 {
        Seq::empty()
    } else {
        grouped_prefix(s, i - 1) + (if i - 1 > 0 && (s.len() - (i - 1)) % 3 == 0 {
            seq![',']
        } else {
            Seq::empty()
        }) + seq![s[i - 1]]
    }
}

/// The whole of `s` with thousands separators written in.
pub open spec fn with_separators(s: Seq<char>) -> Seq<char> {
    grouped_prefix(s, s.len() as int)
}

/// Separates a string with commas at every third character, counted from
/// the right: mainly a utility for numeric strings, for added readability.
pub trait WithThousandsSeparator where Self: View<V = Seq<char>> {
    fn with_thousands_separator(self) -> (r: Self)
        ensures
            r@ == with_separators(self@),
    ;
}

impl WithThousandsSeparator for String {
    fn with_thousands_separator(self) -> (r: Self) {
        let ghost sv = self@;
        let source = self.as_str();
        let len = source.unicode_len();
        let mut out = String::new();
        let mut i: usize = 0;
        proof {
            reveal_strlit(",");
            assert(","@ =~= seq![',']);
        }
        while i < len
            invariant
                i <= len,
                len == sv.len(),
                source@ == sv,
                ","@ == seq![','],
                out@ == grouped_prefix(sv, i as int),
            decreases len - i,
        {
            if i > 0 && (len - i) % 3 == 0 {
                out.append(",");
            }
            let piece = source.substring_char(i, i + 1);
            proof {
                assert(piece@ =~= seq![sv[i as int]]);
            }
            out.append(piece);
            i = i + 1;
        }
        out
    }
}

/// Clones the content of an option when there is one, and falls back to a
/// given default otherwise.
pub trait CloneOnSome<T: Clone> {
    /// What `clone_on_some` promises of its result.
    spec fn chosen(&self, default: T, r: T) -> bool;

    fn clone_on_some(&self, default: T) -> (r: T)
        ensures
            self.chosen(default, r),
    ;
}

impl<T: Clone> CloneOnSome<T> for Option<&T> {
    /// The default comes back on `None`; on `Some` the result is a clone of
    /// the inner value, which is all a generic `Clone` promises.
    open spec fn chosen(&self, default: T, r: T) -> bool {
        match *self {
            None => r == default,
            Some(v) => cloned::<T>(*v, r),
        }
    }

    fn clone_on_some(&self, default: T) -> (r: T) {
        match self {
            Some(v) => (*v).clone(),
            None => default,
        }
    }
}

} // verus!
