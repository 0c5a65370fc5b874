//! Evaluating a node of one kind: for every kind of node, what
//! [`Node::visit`] and [`Node::get_position`] do for a node of that kind.
use vstd::prelude::*;
use crate::errors::Error;
use crate::interpreter::host::{result_view, Host, HostCall};
use crate::interpreter::semantics::{eval, Step};
use crate::interpreter::symbol_table::SymbolTable;
use crate::interpreter::symbols::Symbol;
use crate::lexer::tokens::TokenPosition;
use crate::parser::nodes::{
    position_of, Node, NodeView, AssertNode, BinOpNode, ExecuteBuiltinNode, FuncCallNode, FuncDefNode, IfExprNode,
    ListExprNode, NumberNode, ReturnNode, StringNode, UnaryOpNode, VarAccessNode,
    VarArithmeticAssignmentNode, VarAssignmentNode,
};

verus! {

broadcast use vstd::std_specs::vec::group_vec_axioms;

impl NumberNode {
    /// A number literal. The node is evaluated in `symbol_table`, with at most `depth`
    /// nested calls: what is returned, and what the table holds afterwards,
    /// is what [`eval`] gives for the calls of the host that were made.
    pub fn visit<'a, H: Host>(
        &self,
        symbol_table: &mut SymbolTable<'a>,
        host: &mut H,
        depth: u32,
    ) -> (r: Result<Symbol, Error>)
        ensures
            exists|calls: Seq<HostCall>| #[trigger]
                eval(self.as_node(), old(symbol_table)@, depth as nat, calls, 0) == (Step {
                    result: result_view(r),
                    scopes: final(symbol_table)@,
                    next: calls.len(),
                    faithful: true,
                }),
    {
        let ghost before = symbol_table@;
        let (result, Ghost(after)) = self.visit_logged(
            symbol_table,
            host,
            depth,
            Ghost(Seq::empty()),
        );
        proof {
            assert(after.is_prefix_of(after));
            assert(eval(self.as_node(), before, depth as nat, after, 0) == (Step {
                result: result_view(result),
                scopes: symbol_table@,
                next: after.len(),
                faithful: true,
            }));
        }
        result
    }

    /// The position that the node is reported at.
    pub fn get_position(&self) -> (r: TokenPosition)
        ensures
            r == position_of(self.as_node()),
    {
        self.token.position
    }
}

impl StringNode {
    /// A string literal. The node is evaluated in `symbol_table`, with at most `depth`
    /// nested calls: what is returned, and what the table holds afterwards,
    /// is what [`eval`] gives for the calls of the host that were made.
    pub fn visit<'a, H: Host>(
        &self,
        symbol_table: &mut SymbolTable<'a>,
        host: &mut H,
        depth: u32,
    ) -> (r: Result<Symbol, Error>)
        ensures
            exists|calls: Seq<HostCall>| #[trigger]
                eval(self.as_node(), old(symbol_table)@, depth as nat, calls, 0) == (Step {
                    result: result_view(r),
                    scopes: final(symbol_table)@,
                    next: calls.len(),
                    faithful: true,
                }),
    {
        let ghost before = symbol_table@;
        let (result, Ghost(after)) = self.visit_logged(
            symbol_table,
            host,
            depth,
            Ghost(Seq::empty()),
        );
        proof {
            assert(after.is_prefix_of(after));
            assert(eval(self.as_node(), before, depth as nat, after, 0) == (Step {
                result: result_view(result),
                scopes: symbol_table@,
                next: after.len(),
                faithful: true,
            }));
        }
        result
    }

    /// The position that the node is reported at.
    pub fn get_position(&self) -> (r: TokenPosition)
        ensures
            r == position_of(self.as_node()),
    {
        self.token.position
    }
}

impl BinOpNode {
    /// A binary operator on the values of its operands. The node is evaluated in `symbol_table`, with at most `depth`
    /// nested calls: what is returned, and what the table holds afterwards,
    /// is what [`eval`] gives for the calls of the host that were made.
    pub fn visit<'a, H: Host>(
        &self,
        symbol_table: &mut SymbolTable<'a>,
        host: &mut H,
        depth: u32,
    ) -> (r: Result<Symbol, Error>)
        ensures
            exists|calls: Seq<HostCall>| #[trigger]
                eval(self.as_node(), old(symbol_table)@, depth as nat, calls, 0) == (Step {
                    result: result_view(r),
                    scopes: final(symbol_table)@,
                    next: calls.len(),
                    faithful: true,
                }),
    {
        let ghost before = symbol_table@;
        let (result, Ghost(after)) = self.visit_logged(
            symbol_table,
            host,
            depth,
            Ghost(Seq::empty()),
        );
        proof {
            assert(after.is_prefix_of(after));
            assert(eval(self.as_node(), before, depth as nat, after, 0) == (Step {
                result: result_view(result),
                scopes: symbol_table@,
                next: after.len(),
                faithful: true,
            }));
        }
        result
    }

    /// The position that the node is reported at.
    pub fn get_position(&self) -> (r: TokenPosition)
        ensures
            r == position_of(self.as_node()),
    {
        self.op_token.position
    }
}

impl UnaryOpNode {
    /// A unary operator on the value of its operand. The node is evaluated in `symbol_table`, with at most `depth`
    /// nested calls: what is returned, and what the table holds afterwards,
    /// is what [`eval`] gives for the calls of the host that were made.
    pub fn visit<'a, H: Host>(
        &self,
        symbol_table: &mut SymbolTable<'a>,
        host: &mut H,
        depth: u32,
    ) -> (r: Result<Symbol, Error>)
        ensures
            exists|calls: Seq<HostCall>| #[trigger]
                eval(self.as_node(), old(symbol_table)@, depth as nat, calls, 0) == (Step {
                    result: result_view(r),
                    scopes: final(symbol_table)@,
                    next: calls.len(),
                    faithful: true,
                }),
    {
        let ghost before = symbol_table@;
        let (result, Ghost(after)) = self.visit_logged(
            symbol_table,
            host,
            depth,
            Ghost(Seq::empty()),
        );
        proof {
            assert(after.is_prefix_of(after));
            assert(eval(self.as_node(), before, depth as nat, after, 0) == (Step {
                result: result_view(result),
                scopes: symbol_table@,
                next: after.len(),
                faithful: true,
            }));
        }
        result
    }

    /// The position that the node is reported at.
    pub fn get_position(&self) -> (r: TokenPosition)
        ensures
            r == position_of(self.as_node()),
    {
        self.token.position
    }
}

impl VarAssignmentNode {
    /// `let name = value`. The node is evaluated in `symbol_table`, with at most `depth`
    /// nested calls: what is returned, and what the table holds afterwards,
    /// is what [`eval`] gives for the calls of the host that were made.
    pub fn visit<'a, H: Host>(
        &self,
        symbol_table: &mut SymbolTable<'a>,
        host: &mut H,
        depth: u32,
    ) -> (r: Result<Symbol, Error>)
        ensures
            exists|calls: Seq<HostCall>| #[trigger]
                eval(self.as_node(), old(symbol_table)@, depth as nat, calls, 0) == (Step {
                    result: result_view(r),
                    scopes: final(symbol_table)@,
                    next: calls.len(),
                    faithful: true,
                }),
    {
        let ghost before = symbol_table@;
        let (result, Ghost(after)) = self.visit_logged(
            symbol_table,
            host,
            depth,
            Ghost(Seq::empty()),
        );
        proof {
            assert(after.is_prefix_of(after));
            assert(eval(self.as_node(), before, depth as nat, after, 0) == (Step {
                result: result_view(result),
                scopes: symbol_table@,
                next: after.len(),
                faithful: true,
            }));
        }
        result
    }

    /// The position that the node is reported at.
    pub fn get_position(&self) -> (r: TokenPosition)
        ensures
            r == position_of(self.as_node()),
    {
        self.identifier.position
    }
}

impl VarArithmeticAssignmentNode {
    /// `let name += value`, and the same with `-=`, `*=` and `/=`. The node is evaluated in `symbol_table`, with at most `depth`
    /// nested calls: what is returned, and what the table holds afterwards,
    /// is what [`eval`] gives for the calls of the host that were made.
    pub fn visit<'a, H: Host>(
        &self,
        symbol_table: &mut SymbolTable<'a>,
        host: &mut H,
        depth: u32,
    ) -> (r: Result<Symbol, Error>)
        ensures
            exists|calls: Seq<HostCall>| #[trigger]
                eval(self.as_node(), old(symbol_table)@, depth as nat, calls, 0) == (Step {
                    result: result_view(r),
                    scopes: final(symbol_table)@,
                    next: calls.len(),
                    faithful: true,
                }),
    {
        let ghost before = symbol_table@;
        let (result, Ghost(after)) = self.visit_logged(
            symbol_table,
            host,
            depth,
            Ghost(Seq::empty()),
        );
        proof {
            assert(after.is_prefix_of(after));
            assert(eval(self.as_node(), before, depth as nat, after, 0) == (Step {
                result: result_view(result),
                scopes: symbol_table@,
                next: after.len(),
                faithful: true,
            }));
        }
        result
    }

    /// The position that the node is reported at.
    pub fn get_position(&self) -> (r: TokenPosition)
        ensures
            r == position_of(self.as_node()),
    {
        self.op_token.position
    }
}

impl VarAccessNode {
    /// The use of a name. The node is evaluated in `symbol_table`, with at most `depth`
    /// nested calls: what is returned, and what the table holds afterwards,
    /// is what [`eval`] gives for the calls of the host that were made.
    pub fn visit<'a, H: Host>(
        &self,
        symbol_table: &mut SymbolTable<'a>,
        host: &mut H,
        depth: u32,
    ) -> (r: Result<Symbol, Error>)
        ensures
            exists|calls: Seq<HostCall>| #[trigger]
                eval(self.as_node(), old(symbol_table)@, depth as nat, calls, 0) == (Step {
                    result: result_view(r),
                    scopes: final(symbol_table)@,
                    next: calls.len(),
                    faithful: true,
                }),
    {
        let ghost before = symbol_table@;
        let (result, Ghost(after)) = self.visit_logged(
            symbol_table,
            host,
            depth,
            Ghost(Seq::empty()),
        );
        proof {
            assert(after.is_prefix_of(after));
            assert(eval(self.as_node(), before, depth as nat, after, 0) == (Step {
                result: result_view(result),
                scopes: symbol_table@,
                next: after.len(),
                faithful: true,
            }));
        }
        result
    }

    /// The position that the node is reported at.
    pub fn get_position(&self) -> (r: TokenPosition)
        ensures
            r == position_of(self.as_node()),
    {
        self.identifier.position
    }
}

impl IfExprNode {
    /// `if`. The node is evaluated in `symbol_table`, with at most `depth`
    /// nested calls: what is returned, and what the table holds afterwards,
    /// is what [`eval`] gives for the calls of the host that were made.
    pub fn visit<'a, H: Host>(
        &self,
        symbol_table: &mut SymbolTable<'a>,
        host: &mut H,
        depth: u32,
    ) -> (r: Result<Symbol, Error>)
        ensures
            exists|calls: Seq<HostCall>| #[trigger]
                eval(self.as_node(), old(symbol_table)@, depth as nat, calls, 0) == (Step {
                    result: result_view(r),
                    scopes: final(symbol_table)@,
                    next: calls.len(),
                    faithful: true,
                }),
    {
        let ghost before = symbol_table@;
        let (result, Ghost(after)) = self.visit_logged(
            symbol_table,
            host,
            depth,
            Ghost(Seq::empty()),
        );
        proof {
            assert(after.is_prefix_of(after));
            assert(eval(self.as_node(), before, depth as nat, after, 0) == (Step {
                result: result_view(result),
                scopes: symbol_table@,
                next: after.len(),
                faithful: true,
            }));
        }
        result
    }

    /// The position that the node is reported at.
    pub fn get_position(&self) -> (r: TokenPosition)
        ensures
            r == position_of(self.as_node()),
    {
        self.condition.get_position()
    }
}

impl FuncDefNode {
    /// A function definition. The node is evaluated in `symbol_table`, with at most `depth`
    /// nested calls: what is returned, and what the table holds afterwards,
    /// is what [`eval`] gives for the calls of the host that were made.
    pub fn visit<'a, H: Host>(
        &self,
        symbol_table: &mut SymbolTable<'a>,
        host: &mut H,
        depth: u32,
    ) -> (r: Result<Symbol, Error>)
        ensures
            exists|calls: Seq<HostCall>| #[trigger]
                eval(self.as_node(), old(symbol_table)@, depth as nat, calls, 0) == (Step {
                    result: result_view(r),
                    scopes: final(symbol_table)@,
                    next: calls.len(),
                    faithful: true,
                }),
    {
        let ghost before = symbol_table@;
        let (result, Ghost(after)) = self.visit_logged(
            symbol_table,
            host,
            depth,
            Ghost(Seq::empty()),
        );
        proof {
            assert(after.is_prefix_of(after));
            assert(eval(self.as_node(), before, depth as nat, after, 0) == (Step {
                result: result_view(result),
                scopes: symbol_table@,
                next: after.len(),
                faithful: true,
            }));
        }
        result
    }

    /// The position that the node is reported at.
    pub fn get_position(&self) -> (r: TokenPosition)
        ensures
            r == position_of(self.as_node()),
    {
        self.identifier.position
    }
}

impl FuncCallNode {
    /// A call. The node is evaluated in `symbol_table`, with at most `depth`
    /// nested calls: what is returned, and what the table holds afterwards,
    /// is what [`eval`] gives for the calls of the host that were made.
    pub fn visit<'a, H: Host>(
        &self,
        symbol_table: &mut SymbolTable<'a>,
        host: &mut H,
        depth: u32,
    ) -> (r: Result<Symbol, Error>)
        ensures
            exists|calls: Seq<HostCall>| #[trigger]
                eval(self.as_node(), old(symbol_table)@, depth as nat, calls, 0) == (Step {
                    result: result_view(r),
                    scopes: final(symbol_table)@,
                    next: calls.len(),
                    faithful: true,
                }),
    {
        let ghost before = symbol_table@;
        let (result, Ghost(after)) = self.visit_logged(
            symbol_table,
            host,
            depth,
            Ghost(Seq::empty()),
        );
        proof {
            assert(after.is_prefix_of(after));
            assert(eval(self.as_node(), before, depth as nat, after, 0) == (Step {
                result: result_view(result),
                scopes: symbol_table@,
                next: after.len(),
                faithful: true,
            }));
        }
        result
    }

    /// The position that the node is reported at.
    pub fn get_position(&self) -> (r: TokenPosition)
        ensures
            r == position_of(self.as_node()),
    {
        self.func_node.get_position()
    }
}

impl ListExprNode {
    /// A list. The node is evaluated in `symbol_table`, with at most `depth`
    /// nested calls: what is returned, and what the table holds afterwards,
    /// is what [`eval`] gives for the calls of the host that were made.
    pub fn visit<'a, H: Host>(
        &self,
        symbol_table: &mut SymbolTable<'a>,
        host: &mut H,
        depth: u32,
    ) -> (r: Result<Symbol, Error>)
        ensures
            exists|calls: Seq<HostCall>| #[trigger]
                eval(self.as_node(), old(symbol_table)@, depth as nat, calls, 0) == (Step {
                    result: result_view(r),
                    scopes: final(symbol_table)@,
                    next: calls.len(),
                    faithful: true,
                }),
    {
        let ghost before = symbol_table@;
        let (result, Ghost(after)) = self.visit_logged(
            symbol_table,
            host,
            depth,
            Ghost(Seq::empty()),
        );
        proof {
            assert(after.is_prefix_of(after));
            assert(eval(self.as_node(), before, depth as nat, after, 0) == (Step {
                result: result_view(result),
                scopes: symbol_table@,
                next: after.len(),
                faithful: true,
            }));
        }
        result
    }

    /// The position that the node is reported at.
    pub fn get_position(&self) -> (r: TokenPosition)
        ensures
            r == position_of(self.as_node()),
    {
        if self.elements.len() > 0 {
            assert(crate::parser::nodes::node_views(self.elements@)[0] == self.elements[0]@);
            self.elements[0].get_position()
        } else {
            TokenPosition::internal()
        }
    }
}

impl ReturnNode {
    /// `return`. The node is evaluated in `symbol_table`, with at most `depth`
    /// nested calls: what is returned, and what the table holds afterwards,
    /// is what [`eval`] gives for the calls of the host that were made.
    pub fn visit<'a, H: Host>(
        &self,
        symbol_table: &mut SymbolTable<'a>,
        host: &mut H,
        depth: u32,
    ) -> (r: Result<Symbol, Error>)
        ensures
            exists|calls: Seq<HostCall>| #[trigger]
                eval(self.as_node(), old(symbol_table)@, depth as nat, calls, 0) == (Step {
                    result: result_view(r),
                    scopes: final(symbol_table)@,
                    next: calls.len(),
                    faithful: true,
                }),
    {
        let ghost before = symbol_table@;
        let (result, Ghost(after)) = self.visit_logged(
            symbol_table,
            host,
            depth,
            Ghost(Seq::empty()),
        );
        proof {
            assert(after.is_prefix_of(after));
            assert(eval(self.as_node(), before, depth as nat, after, 0) == (Step {
                result: result_view(result),
                scopes: symbol_table@,
                next: after.len(),
                faithful: true,
            }));
        }
        result
    }

    /// The position that the node is reported at.
    pub fn get_position(&self) -> (r: TokenPosition)
        ensures
            r == position_of(self.as_node()),
    {
        match &self.value {
            Some(value) => value.get_position(),
            None => TokenPosition::internal(),
        }
    }
}

impl AssertNode {
    /// `assert`. The node is evaluated in `symbol_table`, with at most `depth`
    /// nested calls: what is returned, and what the table holds afterwards,
    /// is what [`eval`] gives for the calls of the host that were made.
    pub fn visit<'a, H: Host>(
        &self,
        symbol_table: &mut SymbolTable<'a>,
        host: &mut H,
        depth: u32,
    ) -> (r: Result<Symbol, Error>)
        ensures
            exists|calls: Seq<HostCall>| #[trigger]
                eval(self.as_node(), old(symbol_table)@, depth as nat, calls, 0) == (Step {
                    result: result_view(r),
                    scopes: final(symbol_table)@,
                    next: calls.len(),
                    faithful: true,
                }),
    {
        let ghost before = symbol_table@;
        let (result, Ghost(after)) = self.visit_logged(
            symbol_table,
            host,
            depth,
            Ghost(Seq::empty()),
        );
        proof {
            assert(after.is_prefix_of(after));
            assert(eval(self.as_node(), before, depth as nat, after, 0) == (Step {
                result: result_view(result),
                scopes: symbol_table@,
                next: after.len(),
                faithful: true,
            }));
        }
        result
    }

    /// The position that the node is reported at.
    pub fn get_position(&self) -> (r: TokenPosition)
        ensures
            r == position_of(self.as_node()),
    {
        self.condition.get_position()
    }
}

impl ExecuteBuiltinNode {
    /// A function of the host. The node is evaluated in `symbol_table`, with at most `depth`
    /// nested calls: what is returned, and what the table holds afterwards,
    /// is what [`eval`] gives for the calls of the host that were made.
    pub fn visit<'a, H: Host>(
        &self,
        symbol_table: &mut SymbolTable<'a>,
        host: &mut H,
        depth: u32,
    ) -> (r: Result<Symbol, Error>)
        ensures
            exists|calls: Seq<HostCall>| #[trigger]
                eval(self.as_node(), old(symbol_table)@, depth as nat, calls, 0) == (Step {
                    result: result_view(r),
                    scopes: final(symbol_table)@,
                    next: calls.len(),
                    faithful: true,
                }),
    {
        let ghost before = symbol_table@;
        let (result, Ghost(after)) = self.visit_logged(
            symbol_table,
            host,
            depth,
            Ghost(Seq::empty()),
        );
        proof {
            assert(after.is_prefix_of(after));
            assert(eval(self.as_node(), before, depth as nat, after, 0) == (Step {
                result: result_view(result),
                scopes: symbol_table@,
                next: after.len(),
                faithful: true,
            }));
        }
        result
    }

    /// The position that the node is reported at.
    pub fn get_position(&self) -> (r: TokenPosition)
        ensures
            r == position_of(self.as_node()),
    {
        TokenPosition::internal()
    }
}

/// What can be evaluated: a node, or the payload of a node of one kind.
pub trait NodeVisit {
    /// The view of the node that is evaluated.
    spec fn node_view(&self) -> NodeView;

    /// Evaluates the node in `symbol_table`, with at most `depth` nested
    /// calls: what is returned, and what the table holds afterwards, is what
    /// [`eval`] gives for the calls of the host that were made.
    fn visit<'a, H: Host>(
        &self,
        symbol_table: &mut SymbolTable<'a>,
        host: &mut H,
        depth: u32,
    ) -> (r: Result<Symbol, Error>)
        ensures
            exists|calls: Seq<HostCall>| #[trigger]
                eval(self.node_view(), old(symbol_table)@, depth as nat, calls, 0) == (Step {
                    result: result_view(r),
                    scopes: final(symbol_table)@,
                    next: calls.len(),
                    faithful: true,
                }),
    ;

    /// The position that the node is reported at.
    fn get_position(&self) -> (r: TokenPosition)
        ensures
            r == position_of(self.node_view()),
    ;
}

impl NodeVisit for Node {
    open spec fn node_view(&self) -> NodeView {
        self@
    }

    fn visit<'a, H: Host>(
        &self,
        symbol_table: &mut SymbolTable<'a>,
        host: &mut H,
        depth: u32,
    ) -> (r: Result<Symbol, Error>) {
        let ghost before = symbol_table@;
        let r = Node::visit(self, symbol_table, host, depth);
        proof {
            let calls = choose|calls: Seq<HostCall>| #[trigger]
                eval(self@, before, depth as nat, calls, 0) == (Step {
                    result: result_view(r),
                    scopes: symbol_table@,
                    next: calls.len(),
                    faithful: true,
                });
            assert(eval(self.node_view(), before, depth as nat, calls, 0) == (Step {
                result: result_view(r),
                scopes: symbol_table@,
                next: calls.len(),
                faithful: true,
            }));
        }
        r
    }

    fn get_position(&self) -> (r: TokenPosition) {
        Node::get_position(self)
    }
}

impl NodeVisit for NumberNode {
    open spec fn node_view(&self) -> NodeView {
        self.as_node()
    }

    fn visit<'a, H: Host>(
        &self,
        symbol_table: &mut SymbolTable<'a>,
        host: &mut H,
        depth: u32,
    ) -> (r: Result<Symbol, Error>) {
        let ghost before = symbol_table@;
        let r = NumberNode::visit(self, symbol_table, host, depth);
        proof {
            let calls = choose|calls: Seq<HostCall>| #[trigger]
                eval(self.as_node(), before, depth as nat, calls, 0) == (Step {
                    result: result_view(r),
                    scopes: symbol_table@,
                    next: calls.len(),
                    faithful: true,
                });
            assert(eval(self.node_view(), before, depth as nat, calls, 0) == (Step {
                result: result_view(r),
                scopes: symbol_table@,
                next: calls.len(),
                faithful: true,
            }));
        }
        r
    }

    fn get_position(&self) -> (r: TokenPosition) {
        NumberNode::get_position(self)
    }
}

impl NodeVisit for StringNode {
    open spec fn node_view(&self) -> NodeView {
        self.as_node()
    }

    fn visit<'a, H: Host>(
        &self,
        symbol_table: &mut SymbolTable<'a>,
        host: &mut H,
        depth: u32,
    ) -> (r: Result<Symbol, Error>) {
        let ghost before = symbol_table@;
        let r = StringNode::visit(self, symbol_table, host, depth);
        proof {
            let calls = choose|calls: Seq<HostCall>| #[trigger]
                eval(self.as_node(), before, depth as nat, calls, 0) == (Step {
                    result: result_view(r),
                    scopes: symbol_table@,
                    next: calls.len(),
                    faithful: true,
                });
            assert(eval(self.node_view(), before, depth as nat, calls, 0) == (Step {
                result: result_view(r),
                scopes: symbol_table@,
                next: calls.len(),
                faithful: true,
            }));
        }
        r
    }

    fn get_position(&self) -> (r: TokenPosition) {
        StringNode::get_position(self)
    }
}

impl NodeVisit for BinOpNode {
    open spec fn node_view(&self) -> NodeView {
        self.as_node()
    }

    fn visit<'a, H: Host>(
        &self,
        symbol_table: &mut SymbolTable<'a>,
        host: &mut H,
        depth: u32,
    ) -> (r: Result<Symbol, Error>) {
        let ghost before = symbol_table@;
        let r = BinOpNode::visit(self, symbol_table, host, depth);
        proof {
            let calls = choose|calls: Seq<HostCall>| #[trigger]
                eval(self.as_node(), before, depth as nat, calls, 0) == (Step {
                    result: result_view(r),
                    scopes: symbol_table@,
                    next: calls.len(),
                    faithful: true,
                });
            assert(eval(self.node_view(), before, depth as nat, calls, 0) == (Step {
                result: result_view(r),
                scopes: symbol_table@,
                next: calls.len(),
                faithful: true,
            }));
        }
        r
    }

    fn get_position(&self) -> (r: TokenPosition) {
        BinOpNode::get_position(self)
    }
}

impl NodeVisit for UnaryOpNode {
    open spec fn node_view(&self) -> NodeView {
        self.as_node()
    }

    fn visit<'a, H: Host>(
        &self,
        symbol_table: &mut SymbolTable<'a>,
        host: &mut H,
        depth: u32,
    ) -> (r: Result<Symbol, Error>) {
        let ghost before = symbol_table@;
        let r = UnaryOpNode::visit(self, symbol_table, host, depth);
        proof {
            let calls = choose|calls: Seq<HostCall>| #[trigger]
                eval(self.as_node(), before, depth as nat, calls, 0) == (Step {
                    result: result_view(r),
                    scopes: symbol_table@,
                    next: calls.len(),
                    faithful: true,
                });
            assert(eval(self.node_view(), before, depth as nat, calls, 0) == (Step {
                result: result_view(r),
                scopes: symbol_table@,
                next: calls.len(),
                faithful: true,
            }));
        }
        r
    }

    fn get_position(&self) -> (r: TokenPosition) {
        UnaryOpNode::get_position(self)
    }
}

impl NodeVisit for VarAssignmentNode {
    open spec fn node_view(&self) -> NodeView {
        self.as_node()
    }

    fn visit<'a, H: Host>(
        &self,
        symbol_table: &mut SymbolTable<'a>,
        host: &mut H,
        depth: u32,
    ) -> (r: Result<Symbol, Error>) {
        let ghost before = symbol_table@;
        let r = VarAssignmentNode::visit(self, symbol_table, host, depth);
        proof {
            let calls = choose|calls: Seq<HostCall>| #[trigger]
                eval(self.as_node(), before, depth as nat, calls, 0) == (Step {
                    result: result_view(r),
                    scopes: symbol_table@,
                    next: calls.len(),
                    faithful: true,
                });
            assert(eval(self.node_view(), before, depth as nat, calls, 0) == (Step {
                result: result_view(r),
                scopes: symbol_table@,
                next: calls.len(),
                faithful: true,
            }));
        }
        r
    }

    fn get_position(&self) -> (r: TokenPosition) {
        VarAssignmentNode::get_position(self)
    }
}

impl NodeVisit for VarArithmeticAssignmentNode {
    open spec fn node_view(&self) -> NodeView {
        self.as_node()
    }

    fn visit<'a, H: Host>(
        &self,
        symbol_table: &mut SymbolTable<'a>,
        host: &mut H,
        depth: u32,
    ) -> (r: Result<Symbol, Error>) {
        let ghost before = symbol_table@;
        let r = VarArithmeticAssignmentNode::visit(self, symbol_table, host, depth);
        proof {
            let calls = choose|calls: Seq<HostCall>| #[trigger]
                eval(self.as_node(), before, depth as nat, calls, 0) == (Step {
                    result: result_view(r),
                    scopes: symbol_table@,
                    next: calls.len(),
                    faithful: true,
                });
            assert(eval(self.node_view(), before, depth as nat, calls, 0) == (Step {
                result: result_view(r),
                scopes: symbol_table@,
                next: calls.len(),
                faithful: true,
            }));
        }
        r
    }

    fn get_position(&self) -> (r: TokenPosition) {
        VarArithmeticAssignmentNode::get_position(self)
    }
}

impl NodeVisit for VarAccessNode {
    open spec fn node_view(&self) -> NodeView {
        self.as_node()
    }

    fn visit<'a, H: Host>(
        &self,
        symbol_table: &mut SymbolTable<'a>,
        host: &mut H,
        depth: u32,
    ) -> (r: Result<Symbol, Error>) {
        let ghost before = symbol_table@;
        let r = VarAccessNode::visit(self, symbol_table, host, depth);
        proof {
            let calls = choose|calls: Seq<HostCall>| #[trigger]
                eval(self.as_node(), before, depth as nat, calls, 0) == (Step {
                    result: result_view(r),
                    scopes: symbol_table@,
                    next: calls.len(),
                    faithful: true,
                });
            assert(eval(self.node_view(), before, depth as nat, calls, 0) == (Step {
                result: result_view(r),
                scopes: symbol_table@,
                next: calls.len(),
                faithful: true,
            }));
        }
        r
    }

    fn get_position(&self) -> (r: TokenPosition) {
        VarAccessNode::get_position(self)
    }
}

impl NodeVisit for IfExprNode {
    open spec fn node_view(&self) -> NodeView {
        self.as_node()
    }

    fn visit<'a, H: Host>(
        &self,
        symbol_table: &mut SymbolTable<'a>,
        host: &mut H,
        depth: u32,
    ) -> (r: Result<Symbol, Error>) {
        let ghost before = symbol_table@;
        let r = IfExprNode::visit(self, symbol_table, host, depth);
        proof {
            let calls = choose|calls: Seq<HostCall>| #[trigger]
                eval(self.as_node(), before, depth as nat, calls, 0) == (Step {
                    result: result_view(r),
                    scopes: symbol_table@,
                    next: calls.len(),
                    faithful: true,
                });
            assert(eval(self.node_view(), before, depth as nat, calls, 0) == (Step {
                result: result_view(r),
                scopes: symbol_table@,
                next: calls.len(),
                faithful: true,
            }));
        }
        r
    }

    fn get_position(&self) -> (r: TokenPosition) {
        IfExprNode::get_position(self)
    }
}

impl NodeVisit for FuncDefNode {
    open spec fn node_view(&self) -> NodeView {
        self.as_node()
    }

    fn visit<'a, H: Host>(
        &self,
        symbol_table: &mut SymbolTable<'a>,
        host: &mut H,
        depth: u32,
    ) -> (r: Result<Symbol, Error>) {
        let ghost before = symbol_table@;
        let r = FuncDefNode::visit(self, symbol_table, host, depth);
        proof {
            let calls = choose|calls: Seq<HostCall>| #[trigger]
                eval(self.as_node(), before, depth as nat, calls, 0) == (Step {
                    result: result_view(r),
                    scopes: symbol_table@,
                    next: calls.len(),
                    faithful: true,
                });
            assert(eval(self.node_view(), before, depth as nat, calls, 0) == (Step {
                result: result_view(r),
                scopes: symbol_table@,
                next: calls.len(),
                faithful: true,
            }));
        }
        r
    }

    fn get_position(&self) -> (r: TokenPosition) {
        FuncDefNode::get_position(self)
    }
}

impl NodeVisit for FuncCallNode {
    open spec fn node_view(&self) -> NodeView {
        self.as_node()
    }

    fn visit<'a, H: Host>(
        &self,
        symbol_table: &mut SymbolTable<'a>,
        host: &mut H,
        depth: u32,
    ) -> (r: Result<Symbol, Error>) {
        let ghost before = symbol_table@;
        let r = FuncCallNode::visit(self, symbol_table, host, depth);
        proof {
            let calls = choose|calls: Seq<HostCall>| #[trigger]
                eval(self.as_node(), before, depth as nat, calls, 0) == (Step {
                    result: result_view(r),
                    scopes: symbol_table@,
                    next: calls.len(),
                    faithful: true,
                });
            assert(eval(self.node_view(), before, depth as nat, calls, 0) == (Step {
                result: result_view(r),
                scopes: symbol_table@,
                next: calls.len(),
                faithful: true,
            }));
        }
        r
    }

    fn get_position(&self) -> (r: TokenPosition) {
        FuncCallNode::get_position(self)
    }
}

impl NodeVisit for ListExprNode {
    open spec fn node_view(&self) -> NodeView {
        self.as_node()
    }

    fn visit<'a, H: Host>(
        &self,
        symbol_table: &mut SymbolTable<'a>,
        host: &mut H,
        depth: u32,
    ) -> (r: Result<Symbol, Error>) {
        let ghost before = symbol_table@;
        let r = ListExprNode::visit(self, symbol_table, host, depth);
        proof {
            let calls = choose|calls: Seq<HostCall>| #[trigger]
                eval(self.as_node(), before, depth as nat, calls, 0) == (Step {
                    result: result_view(r),
                    scopes: symbol_table@,
                    next: calls.len(),
                    faithful: true,
                });
            assert(eval(self.node_view(), before, depth as nat, calls, 0) == (Step {
                result: result_view(r),
                scopes: symbol_table@,
                next: calls.len(),
                faithful: true,
            }));
        }
        r
    }

    fn get_position(&self) -> (r: TokenPosition) {
        ListExprNode::get_position(self)
    }
}

impl NodeVisit for ReturnNode {
    open spec fn node_view(&self) -> NodeView {
        self.as_node()
    }

    fn visit<'a, H: Host>(
        &self,
        symbol_table: &mut SymbolTable<'a>,
        host: &mut H,
        depth: u32,
    ) -> (r: Result<Symbol, Error>) {
        let ghost before = symbol_table@;
        let r = ReturnNode::visit(self, symbol_table, host, depth);
        proof {
            let calls = choose|calls: Seq<HostCall>| #[trigger]
                eval(self.as_node(), before, depth as nat, calls, 0) == (Step {
                    result: result_view(r),
                    scopes: symbol_table@,
                    next: calls.len(),
                    faithful: true,
                });
            assert(eval(self.node_view(), before, depth as nat, calls, 0) == (Step {
                result: result_view(r),
                scopes: symbol_table@,
                next: calls.len(),
                faithful: true,
            }));
        }
        r
    }

    fn get_position(&self) -> (r: TokenPosition) {
        ReturnNode::get_position(self)
    }
}

impl NodeVisit for AssertNode {
    open spec fn node_view(&self) -> NodeView {
        self.as_node()
    }

    fn visit<'a, H: Host>(
        &self,
        symbol_table: &mut SymbolTable<'a>,
        host: &mut H,
        depth: u32,
    ) -> (r: Result<Symbol, Error>) {
        let ghost before = symbol_table@;
        let r = AssertNode::visit(self, symbol_table, host, depth);
        proof {
            let calls = choose|calls: Seq<HostCall>| #[trigger]
                eval(self.as_node(), before, depth as nat, calls, 0) == (Step {
                    result: result_view(r),
                    scopes: symbol_table@,
                    next: calls.len(),
                    faithful: true,
                });
            assert(eval(self.node_view(), before, depth as nat, calls, 0) == (Step {
                result: result_view(r),
                scopes: symbol_table@,
                next: calls.len(),
                faithful: true,
            }));
        }
        r
    }

    fn get_position(&self) -> (r: TokenPosition) {
        AssertNode::get_position(self)
    }
}

impl NodeVisit for ExecuteBuiltinNode {
    open spec fn node_view(&self) -> NodeView {
        self.as_node()
    }

    fn visit<'a, H: Host>(
        &self,
        symbol_table: &mut SymbolTable<'a>,
        host: &mut H,
        depth: u32,
    ) -> (r: Result<Symbol, Error>) {
        let ghost before = symbol_table@;
        let r = ExecuteBuiltinNode::visit(self, symbol_table, host, depth);
        proof {
            let calls = choose|calls: Seq<HostCall>| #[trigger]
                eval(self.as_node(), before, depth as nat, calls, 0) == (Step {
                    result: result_view(r),
                    scopes: symbol_table@,
                    next: calls.len(),
                    faithful: true,
                });
            assert(eval(self.node_view(), before, depth as nat, calls, 0) == (Step {
                result: result_view(r),
                scopes: symbol_table@,
                next: calls.len(),
                faithful: true,
            }));
        }
        r
    }

    fn get_position(&self) -> (r: TokenPosition) {
        ExecuteBuiltinNode::get_position(self)
    }
}

} // verus!
