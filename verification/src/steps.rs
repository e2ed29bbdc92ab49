use crate::literal::is_number_literal;
use crate::utils::{
    binary, leaf, unary, views, Node, NodeType, NodeTypeView, NodeView, Op, Step, StepView,
};
use vstd::prelude::*;

verus! {

/// How many operands an operation takes.
pub open spec fn arity(op: Op) -> nat {
    if op == Op::Negation {
        1
    } else {
        2
    }
}

/// A tree is well formed when every leaf holds a number and every
/// operation has as many children as it takes operands.
pub open spec fn well_formed(t: NodeView) -> bool
    decreases t,
{
    match t.node {
        NodeTypeView::Number(text) => is_number_literal(text),
        NodeTypeView::Operation(op, children) => {
            &&& children.len() == arity(op)
            &&& forall|i: int| 0 <= i < children.len() ==> well_formed(#[trigger] children[i])
        },
    }
}

/// The steps that evaluate a tree: those of its children, left to right,
/// then its own operation.
#[verifier::opaque]
pub open spec fn postfix(t: NodeView) -> Seq<StepView>
    decreases t, 0nat,
{
    match t.node {
        NodeTypeView::Number(text) => seq![StepView::Push(text)],
        NodeTypeView::Operation(op, children) => postfix_first(children, children.len()).push(
            StepView::Apply(op),
        ),
    }
}

/// The steps that evaluate the first `n` of `children`, one after another.
#[verifier::opaque]
pub open spec fn postfix_first(children: Seq<NodeView>, n: nat) -> Seq<StepView>
    decreases children, n,
{
    if 0 < n <= children.len() {
        postfix_first(children, (n - 1) as nat) + postfix(children[n - 1])
    } else {
        Seq::empty()
    }
}

/// The mathematical value of a list of steps.
pub open spec fn program(steps: Seq<Step>) -> Seq<StepView> {
    steps.map_values(|s: Step| s@)
}

/// A leaf is evaluated by putting its number on the stack.
pub proof fn lemma_postfix_leaf(pos: usize, text: Seq<char>)
    ensures
        postfix(leaf(pos, text)) == seq![StepView::Push(text)],
{
    reveal(postfix);
    reveal(postfix_first);
}

/// A node over one child is evaluated by the steps of the child, then
/// its own.
pub proof fn lemma_postfix_unary(pos: usize, op: Op, child: NodeView)
    ensures
        postfix(unary(pos, op, child)) == postfix(child).push(StepView::Apply(op)),
{
    reveal(postfix);
    reveal_with_fuel(postfix_first, 2);
    let children = seq![child];
    assert(postfix_first(children, 1) =~= postfix(child));
}

/// A node over two children is evaluated by the steps of the left child,
/// those of the right child, then its own.
pub proof fn lemma_postfix_binary(pos: usize, op: Op, left: NodeView, right: NodeView)
    ensures
        postfix(binary(pos, op, left, right)) == (postfix(left) + postfix(right)).push(
            StepView::Apply(op),
        ),
{
    reveal(postfix);
    reveal_with_fuel(postfix_first, 3);
    let children = seq![left, right];
    assert(postfix_first(children, 2) =~= postfix(left) + postfix(right));
}

/// The value of a list with one more step is the value of the list with
/// the value of that step added.
pub proof fn lemma_program_push(steps: Seq<Step>, s: Step)
    ensures
        program(steps.push(s)) == program(steps).push(s@),
{
    assert(program(steps.push(s)) =~= program(steps).push(s@));
}

/// A list that ends in the steps of a literal, once that step is added.
pub proof fn lemma_emitted_leaf(before: Seq<StepView>, out: Seq<Step>, pos: usize, text: Vec<char>)
    requires
        program(out) == before,
    ensures
        program(out.push(Step::Push(text))) == before + postfix(leaf(pos, text@)),
{
    lemma_program_push(out, Step::Push(text));
    lemma_postfix_leaf(pos, text@);
    assert(before.push(StepView::Push(text@)) =~= before + seq![StepView::Push(text@)]);
}

/// A list that ends in the steps of a child ends in those of the node for
/// `op` over it, once the step for `op` is added.
pub proof fn lemma_emitted_unary(
    before: Seq<StepView>,
    out: Seq<Step>,
    pos: usize,
    op: Op,
    child: NodeView,
)
    requires
        program(out) == before + postfix(child),
    ensures
        program(out.push(Step::Apply(op))) == before + postfix(unary(pos, op, child)),
{
    lemma_program_push(out, Step::Apply(op));
    lemma_postfix_unary(pos, op, child);
    assert((before + postfix(child)).push(StepView::Apply(op)) =~= before + postfix(child).push(
        StepView::Apply(op),
    ));
}

/// A list that ends in the steps of two children, left first, ends in
/// those of the node for `op` over them, once the step for `op` is added.
pub proof fn lemma_emitted_binary(
    before: Seq<StepView>,
    out: Seq<Step>,
    pos: usize,
    op: Op,
    left: NodeView,
    right: NodeView,
)
    requires
        program(out) == before + postfix(left) + postfix(right),
    ensures
        program(out.push(Step::Apply(op))) == before + postfix(binary(pos, op, left, right)),
{
    lemma_program_push(out, Step::Apply(op));
    lemma_postfix_binary(pos, op, left, right);
    assert((before + postfix(left) + postfix(right)).push(StepView::Apply(op)) =~= before + (
    postfix(left) + postfix(right)).push(StepView::Apply(op)));
}

/// The value of the empty list is empty.
pub proof fn lemma_program_empty()
    ensures
        program(Seq::<Step>::empty()) == Seq::<StepView>::empty(),
{
    assert(program(Seq::<Step>::empty()) =~= Seq::<StepView>::empty());
}

/// A copy of `text`.
fn copy_text(text: &Vec<char>) -> (r: Vec<char>)
    ensures
        r@ == text@,
{
    let mut r: Vec<char> = Vec::new();
    let mut i: usize = 0;
    while i < text.len()
        invariant
            i <= text.len(),
            r@ == text@.take(i as int),
        decreases text.len() - i,
    {
        r.push(text[i]);
        assert(text@.take(i + 1) =~= text@.take(i as int).push(text@[i as int]));
        i = i + 1;
    }
    assert(text@.take(text.len() as int) =~= text@);
    r
}

/// Adds the steps that evaluate `node` to `out`.
fn emit(node: &Node, out: &mut Vec<Step>)
    ensures
        program(final(out)@) == program(old(out)@) + postfix(node@),
    decreases node,
{
    let ghost before = program(out@);
    proof {
        reveal(postfix);
        reveal(postfix_first);
    }
    match &node.node {
        NodeType::Number(text) => {
            let step = Step::Push(copy_text(text));
            proof {
                lemma_program_push(out@, step);
                assert(before.push(step@) =~= before + postfix(node@));
            }
            out.push(step);
        },
        NodeType::Operation(op, children) => {
            let ghost below = views(children@);
            let mut i: usize = 0;
            while i < children.len()
                invariant
                    i <= children.len(),
                    node.node == NodeType::Operation(*op, *children),
                    below == views(children@),
                    program(out@) == before + postfix_first(below, i as nat),
                decreases children.len() - i,
            {
                proof {
                    reveal(postfix);
                    reveal(postfix_first);
                    vstd::std_specs::vec::axiom_vec_index_decreases(*children, i as int);
                    assert(decreases_to!(node.node => node.node->Operation_1));
                }
                emit(&children[i], out);
                assert(before + postfix_first(below, i as nat) + postfix(below[i as int]) =~= before
                    + postfix_first(below, (i + 1) as nat));
                i = i + 1;
            }
            proof {
                lemma_program_push(out@, Step::Apply(*op));
                assert((before + postfix_first(below, below.len())).push(StepView::Apply(*op))
                    =~= before + postfix(node@));
            }
            out.push(Step::Apply(*op));
        },
    }
}

/// The steps that evaluate a tree, in the order in which they are carried
/// out: those of each child, left to right, then the node's own operation.
pub fn tree_steps(node: &Node) -> (r: Vec<Step>)
    ensures
        program(r@) == postfix(node@),
{
    let mut out: Vec<Step> = Vec::new();
    proof {
        lemma_program_empty();
    }
    emit(node, &mut out);
    assert(Seq::<StepView>::empty() + postfix(node@) =~= postfix(node@));
    out
}

/// An arithmetic over values of some kind `V`: what a literal stands for,
/// and what each operation makes of its operands.
#[verifier::reject_recursive_types(V)]
pub struct Arithmetic<V> {
    pub number: spec_fn(Seq<char>) -> V,
    pub unary: spec_fn(Op, V) -> V,
    pub binary: spec_fn(Op, V, V) -> V,
}

/// The value of a tree: each operation applied to the values of its
/// children.
pub open spec fn fold<V>(a: Arithmetic<V>, t: NodeView) -> V
    decreases t,
{
    match t.node {
        NodeTypeView::Number(text) => (a.number)(text),
        NodeTypeView::Operation(op, children) => if children.len() == 1 {
            (a.unary)(op, fold(a, children[0]))
        } else if children.len() == 2 {
            (a.binary)(op, fold(a, children[0]), fold(a, children[1]))
        } else {
            arbitrary()
        },
    }
}

/// The stack after one step, or `None` where the stack holds too few
/// values for it.
pub open spec fn step<V>(a: Arithmetic<V>, s: StepView, stack: Seq<V>) -> Option<Seq<V>> {
    match s {
        StepView::Push(text) => Some(stack.push((a.number)(text))),
        StepView::Apply(op) => if arity(op) == 1 {
            if stack.len() >= 1 {
                Some(stack.drop_last().push((a.unary)(op, stack.last())))
            } else {
                None
            }
        } else {
            if stack.len() >= 2 {
                Some(
                    stack.drop_last().drop_last().push(
                        (a.binary)(op, stack[stack.len() - 2], stack.last()),
                    ),
                )
            } else {
                None
            }
        },
    }
}

/// The stack after all of `steps`, one after another.
pub open spec fn run<V>(a: Arithmetic<V>, steps: Seq<StepView>, stack: Seq<V>) -> Option<Seq<V>>
    decreases steps.len(),
{
    if steps.len() == 0 {
        Some(stack)
    } else {
        match step(a, steps[0], stack) {
            Some(next) => run(a, steps.skip(1), next),
            None => None,
        }
    }
}

/// Running two lists of steps one after the other is running their
/// concatenation.
pub proof fn lemma_run_concat<V>(
    a: Arithmetic<V>,
    first: Seq<StepView>,
    second: Seq<StepView>,
    stack: Seq<V>,
)
    ensures
        run(a, first + second, stack) == match run(a, first, stack) {
            Some(middle) => run(a, second, middle),
            None => None,
        },
    decreases first.len(),
{
    if first.len() == 0 {
        assert(first + second =~= second);
    } else {
        assert((first + second)[0] == first[0]);
        assert((first + second).skip(1) =~= first.skip(1) + second);
        match step(a, first[0], stack) {
            Some(next) => {
                lemma_run_concat(a, first.skip(1), second, next);
            },
            None => {},
        }
    }
}

/// Running the steps of a well-formed tree puts the value of the tree on
/// the stack and leaves what was below it untouched.
pub proof fn lemma_run_postfix<V>(a: Arithmetic<V>, t: NodeView, stack: Seq<V>)
    requires
        well_formed(t),
    ensures
        run(a, postfix(t), stack) == Some(stack.push(fold(a, t))),
    decreases t,
{
    reveal(postfix);
    reveal(postfix_first);
    match t.node {
        NodeTypeView::Number(text) => {
            reveal_with_fuel(run, 2);
            assert(postfix(t).skip(1) =~= Seq::<StepView>::empty());
        },
        NodeTypeView::Operation(op, children) => {
            let last = seq![StepView::Apply(op)];
            reveal_with_fuel(run, 2);
            assert(last.skip(1) =~= Seq::<StepView>::empty());
            if children.len() == 1 {
                let x = children[0];
                assert(well_formed(x));
                assert(children =~= seq![x]);
                lemma_postfix_unary(t.pos, op, x);
                assert(postfix(t) =~= postfix(x) + last);
                lemma_run_postfix(a, x, stack);
                lemma_run_concat(a, postfix(x), last, stack);
                let mid = stack.push(fold(a, x));
                assert(mid.drop_last() =~= stack);
            } else {
                let x = children[0];
                let y = children[1];
                assert(well_formed(x) && well_formed(y));
                assert(children =~= seq![x, y]);
                lemma_postfix_binary(t.pos, op, x, y);
                assert(postfix(t) =~= postfix(x) + (postfix(y) + last));
                lemma_run_postfix(a, x, stack);
                let mid = stack.push(fold(a, x));
                lemma_run_postfix(a, y, mid);
                let top = mid.push(fold(a, y));
                lemma_run_concat(a, postfix(y), last, mid);
                lemma_run_concat(a, postfix(x), postfix(y) + last, stack);
                assert(top.drop_last().drop_last() =~= stack);
            }
        },
    }
}

} // verus!
