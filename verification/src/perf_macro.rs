//! The rules of the `#[perf]` test attribute: which arguments it takes, the
//! names of the tests it generates, and the metadata lines those tests print.
//!
//! The attribute's arguments are parsed one identifier at a time; values are
//! expressions of the caller's syntax tree, carried here as `E`.

use crate::perf::consts::{
    IMPORTANCE_LINE_NAME, ITER_COUNT_LINE_NAME, MDATA_VER, SUF_MDATA, SUF_NORMAL,
    VERSION_LINE_NAME, WEIGHT_DEFAULT, WEIGHT_LINE_NAME,
};
use crate::perf::Importance;
use vstd::prelude::*;
use vstd::string::StringExecFns;

verus! {

/// The arguments given to `#[perf]`.
pub struct PerfArgs<E> {
    /// Number of iterations the test asks for, if given.
    pub iterations: Option<E>,
    /// Weight of the test, if given.
    pub weight: Option<E>,
    /// Importance of the test.
    pub importance: Importance,
}

/// Why an argument of `#[perf]` was refused.
#[derive(Debug)]
pub enum PerfArgError<X> {
    /// The value of `iterations` or `weight` did not parse.
    Value(X),
    /// The identifier names no argument.
    UnexpectedIdentifier,
}

impl<X> PerfArgError<X> {
    /// The message of an identifier that names no argument.
    pub open spec fn spec_unexpected_message() -> Seq<char> {
        "unexpected identifier"@
    }

    /// The message reported for an identifier that names no argument.
    pub fn unexpected_message() -> (message: &'static str)
        ensures
            message@ == Self::spec_unexpected_message(),
    {
        "unexpected identifier"
    }
}

/// The argument an identifier names.
#[derive(Clone, Copy, Debug, PartialEq, Eq, Structural)]
pub enum PerfArgName {
    /// `iterations = <expr>`.
    Iterations,
    /// `weight = <expr>`.
    Weight,
    /// A bare importance level.
    Level(Importance),
}

/// The argument named by the identifier `ident`, if any.
pub open spec fn named_arg(ident: Seq<char>) -> Option<PerfArgName> {
    if ident == "iterations"@ {
        Some(PerfArgName::Iterations)
    } else if ident == "weight"@ {
        Some(PerfArgName::Weight)
    } else if ident == "critical"@ {
        Some(PerfArgName::Level(Importance::Critical))
    } else if ident == "important"@ {
        Some(PerfArgName::Level(Importance::Important))
    } else if ident == "average"@ {
        Some(PerfArgName::Level(Importance::Average))
    } else if ident == "iffy"@ {
        Some(PerfArgName::Level(Importance::Iffy))
    } else if ident == "fluff"@ {
        Some(PerfArgName::Level(Importance::Fluff))
    } else {
        None
    }
}

/// `ident` spells `word`.
fn is_word(ident: &str, word: &str) -> (same: bool)
    ensures
        same == (ident@ == word@),
{
    String::from_str(ident) == String::from_str(word)
}

/// The argument named by the identifier `ident`, if any.
pub fn arg_name(ident: &str) -> (name: Option<PerfArgName>)
    ensures
        name == named_arg(ident@),
{
    if is_word(ident, "iterations") {
        Some(PerfArgName::Iterations)
    } else if is_word(ident, "weight") {
        Some(PerfArgName::Weight)
    } else if is_word(ident, "critical") {
        Some(PerfArgName::Level(Importance::Critical))
    } else if is_word(ident, "important") {
        Some(PerfArgName::Level(Importance::Important))
    } else if is_word(ident, "average") {
        Some(PerfArgName::Level(Importance::Average))
    } else if is_word(ident, "iffy") {
        Some(PerfArgName::Level(Importance::Iffy))
    } else if is_word(ident, "fluff") {
        Some(PerfArgName::Level(Importance::Fluff))
    } else {
        None
    }
}

impl<E> PerfArgs<E> {
    /// No argument given: no iteration count, no weight, average importance.
    pub fn new() -> (args: Self)
        ensures
            args.iterations is None,
            args.weight is None,
            args.importance == Importance::Average,
    {
        PerfArgs { iterations: None, weight: None, importance: Importance::Average }
    }

    /// Takes the argument named `ident`. For `iterations` and `weight`,
    /// `value` parses the argument's value, and a value that does not parse
    /// is refused; an identifier that names no argument is refused.
    pub fn parse_into<X, F: FnOnce() -> Result<E, X>>(&mut self, ident: &str, value: F) -> (result:
        Result<(), PerfArgError<X>>)
        requires
            value.requires(()),
        ensures
            match named_arg(ident@) {
                None => result matches Err(PerfArgError::UnexpectedIdentifier)
                    && final(self).iterations == old(self).iterations
                    && final(self).weight == old(self).weight
                    && final(self).importance == old(self).importance,
                Some(PerfArgName::Level(level)) => result is Ok && final(self).importance == level
                    && final(self).iterations == old(self).iterations
                    && final(self).weight == old(self).weight,
                Some(name) => exists|parsed: Result<E, X>|
                    #![trigger value.ensures((), parsed)]
                    value.ensures((), parsed) && match parsed {
                        Ok(e) => result is Ok && final(self).importance == old(self).importance
                            && if name == PerfArgName::Iterations {
                            final(self).iterations == Some(e) && final(self).weight == old(
                                self,
                            ).weight
                        } else {
                            final(self).weight == Some(e) && final(self).iterations == old(
                                self,
                            ).iterations
                        },
                        Err(x) => result == Err::<(), PerfArgError<X>>(PerfArgError::Value(x))
                            && final(self).iterations == old(self).iterations
                            && final(self).weight == old(self).weight
                            && final(self).importance == old(self).importance,
                    },
            },
    {
        match arg_name(ident) {
            None => Err(PerfArgError::UnexpectedIdentifier),
            Some(PerfArgName::Level(level)) => {
                self.importance = level;
                Ok(())
            },
            Some(PerfArgName::Iterations) => match value() {
                Ok(e) => {
                    self.iterations = Some(e);
                    Ok(())
                },
                Err(x) => Err(PerfArgError::Value(x)),
            },
            Some(PerfArgName::Weight) => match value() {
                Ok(e) => {
                    self.weight = Some(e);
                    Ok(())
                },
                Err(x) => Err(PerfArgError::Value(x)),
            },
        }
    }
}

/// The names of the two tests generated for the test function `name`: the
/// timed test and the metadata test.
pub struct PerfTestNames {
    /// Name of the test that runs the body the requested number of times.
    pub main: String,
    /// Name of the test that prints the metadata lines.
    pub meta: String,
}

/// The names of the tests generated for the test function `name`.
pub fn perf_test_names(name: &str) -> (names: PerfTestNames)
    ensures
        names.main@ == name@ + ".perf"@,
        names.meta@ == name@ + ".perfm"@,
{
    let mut main = String::from_str(name);
    main.append(SUF_NORMAL);
    let mut meta = String::from_str(name);
    meta.append(SUF_MDATA);
    PerfTestNames { main, meta }
}

/// The value printed on a metadata line.
pub enum MetaValue<E> {
    /// An expression of the test's arguments, printed as it evaluates.
    Expr(E),
    /// A number.
    Number(u32),
    /// A word.
    Text(&'static str),
}

/// A metadata line: the line prefix, then `name`, then the value.
pub struct MetaLine<E> {
    pub name: &'static str,
    pub value: MetaValue<E>,
}

/// The metadata line named `name` with `value`.
pub open spec fn meta_line<E>(line: MetaLine<E>, name: Seq<char>, value: MetaValue<E>) -> bool {
    line.name@ == name && line.value == value
}

impl<E> PerfArgs<E> {
    /// The metadata lines the metadata test prints, in order: the iteration
    /// count when one was given, the weight (1 when none was given), the
    /// importance and the version of the metadata format.
    pub fn metadata_lines(self) -> (lines: Vec<MetaLine<E>>)
        ensures
            ({
                let k: int = if self.iterations is Some {
                    1
                } else {
                    0
                };
                &&& lines@.len() == k + 3
                &&& self.iterations matches Some(e) ==> meta_line(
                    lines@[0],
                    "iterations"@,
                    MetaValue::Expr(e),
                )
                &&& meta_line(
                    lines@[k],
                    "weight"@,
                    match self.weight {
                        Some(w) => MetaValue::Expr(w),
                        None => MetaValue::Number(1),
                    },
                )
                &&& lines@[k + 1].name@ == "importance"@
                &&& (lines@[k + 1].value matches MetaValue::Text(t) && t@
                    == self.importance.spec_name())
                &&& meta_line(lines@[k + 2], "version"@, MetaValue::Number(1))
            }),
    {
        proof {
            reveal_strlit("iterations");
            reveal_strlit("weight");
            reveal_strlit("importance");
            reveal_strlit("version");
        }
        let mut lines: Vec<MetaLine<E>> = Vec::new();
        let importance = self.importance;
        if let Some(e) = self.iterations {
            lines.push(MetaLine { name: ITER_COUNT_LINE_NAME, value: MetaValue::Expr(e) });
        }
        let weight = match self.weight {
            Some(w) => MetaValue::Expr(w),
            None => MetaValue::Number(WEIGHT_DEFAULT),
        };
        lines.push(MetaLine { name: WEIGHT_LINE_NAME, value: weight });
        lines.push(
            MetaLine { name: IMPORTANCE_LINE_NAME, value: MetaValue::Text(importance.name()) },
        );
        lines.push(MetaLine { name: VERSION_LINE_NAME, value: MetaValue::Number(MDATA_VER) });
        lines
    }
}

} // verus!
