//! The scope chain: a table of names and values with the table that
//! encloses it.
//!
//! A name is looked up in the innermost table first and then outwards. A
//! name is always bound in the innermost table: an enclosing table is never
//! changed through the tables that it encloses, which hold it by a shared
//! reference. A function is called in a fresh table that is enclosed by the
//! table of the caller, so that a name that the function does not bind is
//! looked up where the call is made, not where the function was defined.
use vstd::prelude::*;
use vstd::string::StringExecFns;
use crate::interpreter::symbols::{FunctionSymbol, Symbol, SymbolType, SymbolView};
use crate::lexer::tokens::TokenPosition;
use crate::parser::nodes::{ExecuteBuiltinNode, Node};

verus! {

broadcast use vstd::std_specs::vec::group_vec_axioms;

/// The handle of the host function that is bound to the name `print` in
/// every global table.
pub const PRINT_HANDLE: u32 = 0;

/// One table of a scope chain: the values of the names that are bound in it.
pub type Scope = Map<Seq<char>, SymbolView>;

/// A scope chain, the outermost table first and the innermost last.
pub type Scopes = Seq<Scope>;

/// A name and the value that is bound to it.
#[derive(Debug)]
pub struct Binding {
    pub name: String,
    pub symbol: Symbol,
}

/// A table of names and values, with the table that encloses it.
#[derive(Debug)]
pub struct SymbolTable<'a> {
    pub parent: Option<Box<&'a SymbolTable<'a>>>,
    pub symbols: Vec<Binding>,
}

/// The index of the last binding of `name`, if there is one.
pub open spec fn last_index(bindings: Seq<Binding>, name: Seq<char>) -> Option<int>
    decreases bindings.len(),
{
    if bindings.len() == 0 {
        None
    } else if bindings.last().name@ == name {
        Some(bindings.len() - 1)
    } else {
        last_index(bindings.drop_last(), name)
    }
}

/// The table that a sequence of bindings stands for: a later binding of a
/// name replaces an earlier one.
pub open spec fn scope_of(bindings: Seq<Binding>) -> Scope
    decreases bindings.len(),
{
    if bindings.len() == 0 {
        Map::empty()
    } else {
        scope_of(bindings.drop_last()).insert(bindings.last().name@, bindings.last().symbol@)
    }
}

/// The value of `name` in a scope chain: that of the innermost table that
/// binds it.
pub open spec fn lookup(scopes: Scopes, name: Seq<char>) -> Option<SymbolView>
    decreases scopes.len(),
{
    if scopes.len() == 0 {
        None
    } else if scopes.last().contains_key(name) {
        Some(scopes.last()[name])
    } else {
        lookup(scopes.drop_last(), name)
    }
}

/// The scope chain with `name` bound to `value` in its innermost table.
pub open spec fn assign(scopes: Scopes, name: Seq<char>, value: SymbolView) -> Scopes {
    scopes.update(scopes.len() - 1, scopes.last().insert(name, value))
}

/// The scope chain with the first names of `names` bound, in order, to the
/// first values of `values`, from index `from` on, as far as both reach.
pub open spec fn assign_all(scopes: Scopes, names: Seq<Seq<char>>, values: Seq<SymbolView>, from: nat) -> Scopes
    decreases names.len() - from,
{
    if from < names.len() && from < values.len() {
        assign_all(assign(scopes, names[from as int], values[from as int]), names, values, from + 1)
    } else {
        scopes
    }
}

/// The scope chain with a fresh innermost table.
pub open spec fn enter(scopes: Scopes) -> Scopes {
    scopes.push(Map::empty())
}

/// The value that the name `print` has in every global table: the host
/// function with the handle [`PRINT_HANDLE`] and the parameters `text` and
/// `arguments`.
pub open spec fn print_function() -> SymbolView {
    SymbolView {
        value: crate::interpreter::symbols::SymbolKind::Function(
            crate::interpreter::symbols::FunctionView {
                name: "print"@,
                args: seq!["text"@, "arguments"@],
                node: crate::parser::nodes::NodeView::ExecuteBuiltin {
                    handle: PRINT_HANDLE,
                    bound: None,
                },
            },
        ),
        position: TokenPosition::internal(),
    }
}

/// The scope chain of a fresh global table: one table, which binds `print`.
pub open spec fn global_scopes() -> Scopes {
    seq![Map::<Seq<char>, SymbolView>::empty().insert("print"@, print_function())]
}

/// The view of a value that may be absent.
pub open spec fn symbol_option(symbol: Option<Symbol>) -> Option<SymbolView> {
    match symbol {
        Some(s) => Some(s@),
        None => None,
    }
}

/// The last binding of a name is what the table of the bindings holds for
/// it.
pub proof fn lemma_scope_of(bindings: Seq<Binding>, name: Seq<char>)
    ensures
        match last_index(bindings, name) {
            Some(i) => 0 <= i < bindings.len() && bindings[i].name@ == name && scope_of(
                bindings,
            ).contains_key(name) && scope_of(bindings)[name] == bindings[i].symbol@,
            None => !scope_of(bindings).contains_key(name),
        },
    decreases bindings.len(),
{
    if bindings.len() > 0 {
        lemma_scope_of(bindings.drop_last(), name);
    }
}

/// Where the last binding of a name stands depends on the names alone.
pub proof fn lemma_last_index_names(a: Seq<Binding>, b: Seq<Binding>, name: Seq<char>)
    requires
        a.len() == b.len(),
        forall|i: int| 0 <= i < a.len() ==> a[i].name@ == b[i].name@,
    ensures
        last_index(a, name) == last_index(b, name),
    decreases a.len(),
{
    if a.len() > 0 {
        lemma_last_index_names(a.drop_last(), b.drop_last(), name);
    }
}

impl<'a> View for SymbolTable<'a> {
    type V = Scopes;

    open spec fn view(&self) -> Scopes {
        self.scopes()
    }
}

impl<'a> SymbolTable<'a> {
    /// The scope chain that ends in this table.
    pub open spec fn scopes(&self) -> Scopes
        decreases self,
    {
        match self.parent {
            Some(parent) => parent.scopes().push(scope_of(self.symbols@)),
            None => seq![scope_of(self.symbols@)],
        }
    }

    /// An empty table that is enclosed by `parent`.
    pub fn new(parent: Box<&'a SymbolTable<'a>>) -> (r: SymbolTable<'a>)
        ensures
            r@ == enter(parent@),
    {
        SymbolTable { parent: Some(parent), symbols: Vec::new() }
    }

    /// A table that nothing encloses, with the host function `print` bound
    /// in it.
    pub fn new_global() -> (r: SymbolTable<'a>)
        ensures
            r@ == global_scopes(),
    {
        let mut symbol_table = SymbolTable { parent: None, symbols: Vec::new() };
        symbol_table.add_builtin_functions();
        symbol_table
    }

    /// The index of the last binding of `name` in this table.
    fn find(&self, name: &String) -> (r: Option<usize>)
        ensures
            match r {
                Some(i) => i < self.symbols.len() && self.symbols[i as int].name@ == name@
                    && last_index(self.symbols@, name@) == Some(i as int),
                None => last_index(self.symbols@, name@) is None,
            },
    {
        let mut i: usize = self.symbols.len();
        assert(self.symbols@.take(self.symbols.len() as int) =~= self.symbols@);
        while i > 0
            invariant
                i <= self.symbols.len(),
                last_index(self.symbols@, name@) == last_index(self.symbols@.take(i as int), name@),
            decreases i,
        {
            if self.symbols[i - 1].name == *name {
                return Some(i - 1);
            }
            assert(self.symbols@.take(i as int).drop_last() =~= self.symbols@.take(i - 1));
            i -= 1;
        }
        None
    }

    /// Binds `name` to `symbol` in this table. An earlier binding of the
    /// name in this table is replaced; the enclosing tables stay as they
    /// are.
    pub fn set(&mut self, name: String, symbol: Symbol)
        ensures
            final(self)@ == assign(old(self)@, name@, symbol@),
            final(self).parent == old(self).parent,
    {
        let ghost before = self.symbols@;
        match self.find(&name) {
            Some(i) => {
                self.symbols[i] = Binding { name, symbol };
                let ghost now = scope_of(self.symbols@);
                let ghost want = scope_of(before).insert(name@, symbol@);
                assert forall|k: Seq<char>| #[trigger] now.dom().contains(k) == want.dom().contains(k) by {
                    lemma_last_index_names(before, self.symbols@, k);
                    lemma_scope_of(before, k);
                    lemma_scope_of(self.symbols@, k);
                }
                assert forall|k: Seq<char>| #[trigger] now.dom().contains(k) implies now[k] == want[k] by {
                    lemma_last_index_names(before, self.symbols@, k);
                    lemma_scope_of(before, k);
                    lemma_scope_of(self.symbols@, k);
                }
                assert(scope_of(self.symbols@) =~= scope_of(before).insert(name@, symbol@));
            },
            None => {
                self.symbols.push(Binding { name, symbol });
                assert(self.symbols@.drop_last() =~= before);
            },
        }
        assert(final(self)@ =~= assign(old(self)@, name@, symbol@));
    }

    /// The value of `identifier`: that of the innermost table, from this one
    /// outwards, that binds it.
    pub fn get(&self, identifier: &String) -> (r: Option<Symbol>)
        ensures
            symbol_option(r) == lookup(self@, identifier@),
        decreases self,
    {
        proof {
            lemma_scope_of(self.symbols@, identifier@);
        }
        match self.find(identifier) {
            Some(i) => {
                let found = self.symbols[i].symbol.clone();
                proof {
                    if self.parent is Some {
                        assert(self@.last() == scope_of(self.symbols@));
                    } else {
                        assert(self@.last() == scope_of(self.symbols@));
                    }
                }
                Some(found)
            },
            None => match &self.parent {
                Some(parent) => {
                    let found = parent.get(identifier);
                    proof {
                        assert(self@ == parent.scopes().push(scope_of(self.symbols@)));
                        assert(self@.drop_last() =~= parent.scopes());
                        assert(self@.last() == scope_of(self.symbols@));
                    }
                    found
                },
                None => {
                    proof {
                        assert(self@ == seq![scope_of(self.symbols@)]);
                        assert(self@.drop_last() =~= Seq::<Scope>::empty());
                        assert(self@.last() == scope_of(self.symbols@));
                        assert(lookup(self@.drop_last(), identifier@) is None);
                    }
                    None
                },
            },
        }
    }

    /// Binds the parameters of a function to the values of a call, one by
    /// one, as far as both reach.
    pub fn set_args(&mut self, func_args: &Vec<String>, args: Vec<Symbol>)
        ensures
            final(self)@ == assign_all(
                old(self)@,
                crate::lexer::tokens::text_views(func_args@),
                crate::interpreter::symbols::symbol_views(args@),
                0,
            ),
            final(self).parent == old(self).parent,
    {
        let ghost names = crate::lexer::tokens::text_views(func_args@);
        let ghost values = crate::interpreter::symbols::symbol_views(args@);
        let mut i: usize = 0;
        while i < func_args.len() && i < args.len()
            invariant
                i <= func_args.len(),
                i <= args.len(),
                names == crate::lexer::tokens::text_views(func_args@),
                values == crate::interpreter::symbols::symbol_views(args@),
                self.parent == old(self).parent,
                assign_all(old(self)@, names, values, 0) == assign_all(self@, names, values, i as nat),
            decreases func_args.len() - i,
        {
            self.set(func_args[i].clone(), args[i].clone());
            i += 1;
        }
    }

    /// Binds `name` to the host function that the host knows under
    /// `handle`, with the parameters `args`.
    pub fn add_function(&mut self, name: &str, args: Vec<String>, handle: u32)
        ensures
            final(self)@ == assign(
                old(self)@,
                name@,
                SymbolView {
                    value: crate::interpreter::symbols::SymbolKind::Function(
                        crate::interpreter::symbols::FunctionView {
                            name: name@,
                            args: crate::lexer::tokens::text_views(args@),
                            node: crate::parser::nodes::NodeView::ExecuteBuiltin {
                                handle: handle,
                                bound: None,
                            },
                        },
                    ),
                    position: TokenPosition::internal(),
                },
            ),
            final(self).parent == old(self).parent,
    {
        let node = Node::ExecuteBuiltinNode(Box::new(ExecuteBuiltinNode::new(handle, None)));
        let function = FunctionSymbol::new(String::from_str(name), args, node);
        self.set(
            String::from_str(name),
            Symbol::new(SymbolType::Function(function), TokenPosition::internal()),
        );
    }

    /// Binds the functions that every global table has: `print`, with the
    /// parameters `text` and `arguments`.
    fn add_builtin_functions(&mut self)
        requires
            old(self)@ == seq![Map::<Seq<char>, SymbolView>::empty()],
        ensures
            final(self)@ == global_scopes(),
            final(self).parent == old(self).parent,
    {
        let mut args: Vec<String> = Vec::new();
        args.push(String::from_str("text"));
        args.push(String::from_str("arguments"));
        assert(crate::lexer::tokens::text_views(args@) =~= seq!["text"@, "arguments"@]);
        self.add_function("print", args, PRINT_HANDLE);
        assert(final(self)@ =~= global_scopes());
    }
}

} // verus!
