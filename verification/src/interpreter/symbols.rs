//! The values of the language.
use vstd::prelude::*;
use vstd::string::StringExecFns;
use crate::lexer::tokens::{text_views, TokenPosition};
use crate::parser::nodes::{clone_node, Node, NodeView};
use crate::text::{decimal, int_text, push_decimal, push_int};

verus! {

/// A value together with the position that errors about it are reported at.
#[derive(Debug, PartialEq)]
pub struct Symbol {
    pub value: SymbolType,
    pub position: TokenPosition,
}

/// The kinds of value.
///
/// A float is held as the 32 bits of its IEEE 754 representation. The
/// library computes nothing on those bits but the change of sign: all other
/// floating-point work is done by the host.
#[derive(Debug, PartialEq)]
pub enum SymbolType {
    Integer(i32),
    Float(u32),
    String(String),
    Function(FunctionSymbol),
    Nothing,
}

/// A function: its name, the names of its parameters, and its body, which is
/// a sequence of statements or the mark of a function of the host.
#[derive(Debug, PartialEq)]
pub struct FunctionSymbol {
    pub name: String,
    pub args: Vec<String>,
    pub node: Node,
}

/// The mathematical value of a [`FunctionSymbol`].
pub struct FunctionView {
    pub name: Seq<char>,
    pub args: Seq<Seq<char>>,
    pub node: NodeView,
}

/// The mathematical value of a [`SymbolType`].
pub enum SymbolKind {
    Integer(i32),
    Float(u32),
    String(Seq<char>),
    Function(FunctionView),
    Nothing,
}

/// The mathematical value of a [`Symbol`].
pub struct SymbolView {
    pub value: SymbolKind,
    pub position: TokenPosition,
}

impl View for FunctionSymbol {
    type V = FunctionView;

    open spec fn view(&self) -> FunctionView {
        FunctionView { name: self.name@, args: text_views(self.args@), node: self.node@ }
    }
}

impl View for SymbolType {
    type V = SymbolKind;

    open spec fn view(&self) -> SymbolKind {
        match self {
            SymbolType::Integer(i) => SymbolKind::Integer(*i),
            SymbolType::Float(bits) => SymbolKind::Float(*bits),
            SymbolType::String(s) => SymbolKind::String(s@),
            SymbolType::Function(f) => SymbolKind::Function(f@),
            SymbolType::Nothing => SymbolKind::Nothing,
        }
    }
}

impl View for Symbol {
    type V = SymbolView;

    open spec fn view(&self) -> SymbolView {
        SymbolView { value: self.value@, position: self.position }
    }
}

/// The views of a sequence of values, one for one.
pub open spec fn symbol_views(symbols: Seq<Symbol>) -> Seq<SymbolView> {
    Seq::new(symbols.len(), |i: int| symbols[i]@)
}

/// The value that stands for no value, at `position`.
pub open spec fn nothing_at(position: TokenPosition) -> SymbolView {
    SymbolView { value: SymbolKind::Nothing, position: position }
}

/// The text of a value: the digits of an integer, the characters of a string,
/// `None`, and the name of a function behind `FunctionSymbol: `. The library
/// formats no floating-point numbers: a float is shown by its bits.
#[verifier::opaque]
pub open spec fn symbol_text(kind: SymbolKind) -> Seq<char> {
    match kind {
        SymbolKind::Integer(i) => int_text(i as int),
        SymbolKind::Float(bits) => "Float(bits="@ + decimal(bits as nat) + ")"@,
        SymbolKind::String(s) => s,
        SymbolKind::Function(f) => "FunctionSymbol: "@ + f.name,
        SymbolKind::Nothing => "None"@,
    }
}

/// A copy of a vector of texts.
pub fn clone_texts(texts: &Vec<String>) -> (r: Vec<String>)
    ensures
        r@ == texts@,
{
    let mut out: Vec<String> = Vec::new();
    let mut i: usize = 0;
    while i < texts.len()
        invariant
            i <= texts.len(),
            out@ == texts@.take(i as int),
        decreases texts.len() - i,
    {
        out.push(texts[i].clone());
        i += 1;
        assert(out@ =~= texts@.take(i as int));
    }
    assert(out@ =~= texts@);
    out
}

impl Clone for FunctionSymbol {
    fn clone(&self) -> (r: FunctionSymbol)
        ensures
            r@ == self@,
    {
        FunctionSymbol {
            name: self.name.clone(),
            args: clone_texts(&self.args),
            node: clone_node(&self.node),
        }
    }
}

impl Clone for SymbolType {
    fn clone(&self) -> (r: SymbolType)
        ensures
            r@ == self@,
    {
        match self {
            SymbolType::Integer(i) => SymbolType::Integer(*i),
            SymbolType::Float(bits) => SymbolType::Float(*bits),
            SymbolType::String(s) => SymbolType::String(s.clone()),
            SymbolType::Function(f) => SymbolType::Function(f.clone()),
            SymbolType::Nothing => SymbolType::Nothing,
        }
    }
}

impl Clone for Symbol {
    fn clone(&self) -> (r: Symbol)
        ensures
            r@ == self@,
    {
        Symbol { value: self.value.clone(), position: self.position }
    }
}

impl Symbol {
    /// A value of this kind from its parts.
    pub fn new(value: SymbolType, position: TokenPosition) -> (r: Symbol)
        ensures
            r.value == value,
            r.position == position,
    {
        Symbol { value, position }
    }

    /// The text of the value.
    pub fn to_string(&self) -> (r: String)
        ensures
            r@ == symbol_text(self@.value),
    {
        self.value.to_string()
    }
}

impl SymbolType {
    /// The text of the value.
    pub fn to_string(&self) -> (r: String)
        ensures
            r@ == symbol_text(self@),
    {
        proof {
            reveal(symbol_text);
        }
        match self {
            SymbolType::Integer(value) => {
                let mut out = String::new();
                push_int(&mut out, *value as i64);
                assert(out@ =~= int_text(*value as int));
                out
            },
            SymbolType::Float(bits) => {
                let mut out = String::from_str("Float(bits=");
                push_decimal(&mut out, *bits as u64);
                out.append(")");
                out
            },
            SymbolType::String(value) => value.clone(),
            SymbolType::Function(value) => value.to_string(),
            SymbolType::Nothing => String::from_str("None"),
        }
    }
}

impl FunctionSymbol {
    /// A value of this kind from its parts.
    pub fn new(name: String, args: Vec<String>, node: Node) -> (r: FunctionSymbol)
        ensures
            r.name == name,
            r.args == args,
            r.node == node,
    {
        FunctionSymbol { name, args, node }
    }

    /// The name of the function behind `FunctionSymbol: `.
    pub fn to_string(&self) -> (r: String)
        ensures
            r@ == "FunctionSymbol: "@ + self.name@,
    {
        let mut out = String::from_str("FunctionSymbol: ");
        out.append(self.name.as_str());
        out
    }
}

} // verus!
