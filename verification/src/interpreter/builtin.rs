//! What the functions `print` and `input` of a host compute, apart from the
//! printing and the reading.
use vstd::prelude::*;
use vstd::string::StringExecFns;
use crate::errors::{Error, ErrorType, ErrorView};
use crate::interpreter::calls::evaluate_arguments;
use crate::interpreter::host::{Host, HostCall};
use crate::interpreter::semantics::{eval_list, ListStep};
use crate::interpreter::symbol_table::SymbolTable;
use crate::interpreter::operations::runtime_error;
use crate::interpreter::symbols::{
    symbol_text, symbol_views, Symbol, SymbolKind, SymbolType, SymbolView,
};
use crate::parser::nodes::{node_views, Node};

verus! {

broadcast use vstd::std_specs::vec::group_vec_axioms;

/// Evaluates the argument nodes that a function of the host was handed, in
/// order, in the table that it was handed: what a function of the host does
/// that takes the values of its arguments.
pub fn evaluate_args<'a, H: Host>(
    symbol_table: &mut SymbolTable<'a>,
    args: &Vec<Node>,
    host: &mut H,
    depth: u32,
) -> (r: Result<Vec<Symbol>, Error>)
    ensures
        exists|calls: Seq<HostCall>| #[trigger]
            eval_list(
                node_views(args@),
                0,
                Seq::empty(),
                old(symbol_table)@,
                depth as nat,
                calls,
                0,
            ) == (ListStep {
                result: match r {
                    Ok(values) => Ok(symbol_views(values@)),
                    Err(e) => Err(e@),
                },
                scopes: final(symbol_table)@,
                next: calls.len(),
                faithful: true,
            }),
{
    let ghost before = symbol_table@;
    let (r, Ghost(after)) = evaluate_arguments(args, symbol_table, host, depth, Ghost(Seq::empty()));
    proof {
        assert(after.is_prefix_of(after));
        assert(eval_list(node_views(args@), 0, Seq::empty(), before, depth as nat, after, 0) == (
        ListStep {
            result: match r {
                Ok(values) => Ok(symbol_views(values@)),
                Err(e) => Err(e@),
            },
            scopes: symbol_table@,
            next: after.len(),
            faithful: true,
        }));
    }
    r
}

/// Whether a `{}` stands at index `i` of `text`.
pub open spec fn marker_at(text: Seq<char>, i: int) -> bool {
    0 <= i && i + 1 < text.len() && text[i] == '{' && text[i + 1] == '}'
}

/// The number of `{}` in `text` from index `from` on, read from left to
/// right, none overlapping another.
pub open spec fn count_markers(text: Seq<char>, from: int) -> nat
    decreases text.len() - from,
{
    if from < 0 || from >= text.len() {
        0
    } else if marker_at(text, from) {
        1 + count_markers(text, from + 2)
    } else {
        count_markers(text, from + 1)
    }
}

/// The text from index `from` on with the `{}` replaced, one after the
/// other, by the texts of `args` from index `used` on; whatever else stands
/// in the text stays as it is.
pub open spec fn filled(text: Seq<char>, from: int, args: Seq<Seq<char>>, used: int) -> Seq<char>
    decreases text.len() - from,
{
    if from < 0 || from >= text.len() {
        Seq::empty()
    } else if marker_at(text, from) && 0 <= used < args.len() {
        args[used] + filled(text, from + 2, args, used + 1)
    } else {
        seq![text[from]] + filled(text, from + 1, args, used)
    }
}

/// What formatting gives: the texts of the arguments in the places of the
/// `{}`, where there are as many of the one as of the other.
pub open spec fn formatted(text: Seq<char>, args: Seq<Seq<char>>) -> Result<Seq<char>, Seq<char>> {
    if count_markers(text, 0) == args.len() {
        Ok(filled(text, 0, args, 0))
    } else {
        Err("Number of format arguments does not match number of format specifiers in string"@)
    }
}

/// The message of the error for a first argument of `print` that is no
/// string.
#[verifier::opaque]
pub open spec fn not_printable_message(kind: SymbolKind) -> Seq<char> {
    "Cannot print non-string '"@ + symbol_text(kind) + "'"@
}

/// What `print` prints: its first argument must be a string, and the texts
/// of the further arguments are put in the places of its `{}`. Both a first
/// argument of another kind and a number of further arguments other than
/// that of the `{}` are type errors at the first argument.
pub open spec fn printed(first: SymbolView, rendered: Seq<Seq<char>>) -> Result<Seq<char>, ErrorView> {
    match first.value {
        SymbolKind::String(text) => match formatted(text, rendered) {
            Ok(line) => Ok(line),
            Err(message) => Err(runtime_error(ErrorType::TypeError, message, first.position)),
        },
        _ => Err(
            runtime_error(
                ErrorType::TypeError,
                not_printable_message(first.value),
                first.position,
            ),
        ),
    }
}

/// The text without the line end that closes it: a line feed, and a
/// carriage return before it.
pub open spec fn trimmed(text: Seq<char>) -> Seq<char> {
    if text.len() > 0 && text.last() == '\n' {
        let line = text.drop_last();
        if line.len() > 0 && line.last() == '\r' {
            line.drop_last()
        } else {
            line
        }
    } else {
        text
    }
}

/// The characters of a text.
fn chars_of(text: &String) -> (r: Vec<char>)
    ensures
        r@ == text@,
{
    let mut chars: Vec<char> = Vec::new();
    for c in it: text.as_str().chars()
        invariant
            it.seq() == text@,
            chars@ == it.seq().take(it.index()),
    {
        chars.push(c);
        assert(chars@ =~= it.seq().take(it.index() + 1));
    }
    assert(chars@ =~= text@);
    chars
}

/// The number of `{}` in `text`.
fn markers(chars: &Vec<char>) -> (r: usize)
    ensures
        r == count_markers(chars@, 0),
{
    let mut count: usize = 0;
    let mut i: usize = 0;
    while i < chars.len()
        invariant
            i <= chars.len(),
            count <= i,
            count_markers(chars@, 0) == count + count_markers(chars@, i as int),
        decreases chars.len() - i,
    {
        if chars[i] == '{' && i + 1 < chars.len() && chars[i + 1] == '}' {
            count += 1;
            i += 2;
        } else {
            i += 1;
        }
    }
    count
}

/// Whether `text` has as many `{}` as there are texts in `args`.
pub fn same_size(text: &String, args: &Vec<String>) -> (r: bool)
    ensures
        r == (count_markers(text@, 0) == args.len()),
{
    let chars = chars_of(text);
    markers(&chars) == args.len()
}

/// The text with each `{}` replaced by the argument of its place.
pub fn format_string(text: String, args: Vec<String>) -> (r: Result<String, String>)
    ensures
        match formatted(text@, crate::lexer::tokens::text_views(args@)) {
            Ok(out) => r is Ok && r->Ok_0@ == out,
            Err(message) => r is Err && r->Err_0@ == message,
        },
{
    let chars = chars_of(&text);
    if markers(&chars) != args.len() {
        return Err(
            String::from_str(
                "Number of format arguments does not match number of format specifiers in string",
            ),
        );
    }
    let ghost texts = crate::lexer::tokens::text_views(args@);
    let mut final_string = String::new();
    let mut i: usize = 0;
    let mut used: usize = 0;
    assert(final_string@ + filled(chars@, 0, texts, 0) =~= filled(chars@, 0, texts, 0));
    while i < chars.len()
        invariant
            i <= chars.len(),
            used <= args.len(),
            texts == crate::lexer::tokens::text_views(args@),
            filled(chars@, 0, texts, 0) == final_string@ + filled(chars@, i as int, texts, used as int),
        decreases chars.len() - i,
    {
        let ghost before = final_string@;
        if chars[i] == '{' && i + 1 < chars.len() && chars[i + 1] == '}' && used < args.len() {
            final_string.append(args[used].as_str());
            proof {
                assert(texts[used as int] == args[used as int]@);
                assert(final_string@ + filled(chars@, i + 2, texts, used + 1) =~= before + (
                texts[used as int] + filled(chars@, i + 2, texts, used + 1)));
            }
            used += 1;
            i += 2;
        } else {
            final_string.push(chars[i]);
            proof {
                assert(final_string@ + filled(chars@, i + 1, texts, used as int) =~= before + (
                seq![chars@[i as int]] + filled(chars@, i + 1, texts, used as int)));
            }
            i += 1;
        }
    }
    proof {
        assert(filled(chars@, i as int, texts, used as int) =~= Seq::<char>::empty());
        assert(final_string@ + Seq::<char>::empty() =~= final_string@);
    }
    Ok(final_string)
}

/// The line that `print` prints for the value of its first argument and the
/// texts of its further arguments.
pub fn print_text(first: &Symbol, rendered: Vec<String>) -> (r: Result<String, Error>)
    ensures
        match printed(first@, crate::lexer::tokens::text_views(rendered@)) {
            Ok(line) => r is Ok && r->Ok_0@ == line,
            Err(e) => r is Err && r->Err_0@ == e,
        },
{
    match &first.value {
        SymbolType::String(text) => match format_string(text.clone(), rendered) {
            Ok(line) => Ok(line),
            Err(message) => Err(Error::new_runtime(ErrorType::TypeError, message, &first.position)),
        },
        _ => {
            proof {
                reveal(not_printable_message);
            }
            let mut message = String::from_str("Cannot print non-string '");
            message.append(first.value.to_string().as_str());
            message.append("'");
            Err(Error::new_runtime(ErrorType::TypeError, message, &first.position))
        },
    }
}

/// Takes the line end off the end of a line that was read.
pub fn trim_newline(s: &mut String)
    ensures
        final(s)@ == trimmed(old(s)@),
{
    let chars = chars_of(s);
    let n = chars.len();
    if n > 0 && chars[n - 1] == '\n' {
        let keep = if n > 1 && chars[n - 2] == '\r' {
            n - 2
        } else {
            n - 1
        };
        let mut out = String::new();
        let mut i: usize = 0;
        while i < keep
            invariant
                i <= keep <= chars.len(),
                out@ == chars@.subrange(0, i as int),
            decreases keep - i,
        {
            out.push(chars[i]);
            i += 1;
            assert(out@ =~= chars@.subrange(0, i as int));
        }
        proof {
            let line = chars@.drop_last();
            assert(line =~= chars@.subrange(0, n - 1));
            if n > 1 && chars[n - 2] == '\r' {
                assert(line.drop_last() =~= chars@.subrange(0, n - 2));
            }
        }
        *s = out;
    }
}

} // verus!
