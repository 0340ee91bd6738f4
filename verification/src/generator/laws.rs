use crate::generator::generators::variable_spec;
use crate::generator::usage::{inserted, sorted_by_name};
use crate::generator::{
    declare, node_piece, pieces_upto, source_spec, target_spec, visible_at, Piece, TargetView,
};
use crate::parser::nodes::{Node, NodeType, NodeView};
use crate::text::{lemma_text_less_asymmetric, lemma_text_not_less_transitive, text_less};
use vstd::prelude::*;
use vstd::seq_lib::to_multiset_build;

verus! {

/// Generating is a function of the tree: two trees with the same nodes give
/// the same output text, or the same failure.
pub proof fn lemma_generate_repeats(first: &Node, second: &Node)
    requires
        first@ == second@,
    ensures
        source_spec(first@) == source_spec(second@),
{
}

/// What is visible in a scope from outside stays visible throughout it.
pub proof fn lemma_outer_stays_visible(
    vars: Seq<Seq<char>>,
    nodes: Seq<NodeView>,
    i: int,
    name: Seq<char>,
)
    requires
        0 <= i <= nodes.len(),
        vars.contains(name),
    ensures
        visible_at(vars, nodes, i).contains(name),
    decreases i,
{
    if i > 0 {
        lemma_outer_stays_visible(vars, nodes, i - 1, name);
        let before = visible_at(vars, nodes, i - 1);
        let k = choose|k: int| 0 <= k < before.len() && before[k] == name;
        assert(declare(before, nodes[i - 1])[k] == name);
    }
}

/// The variable of an assignment is visible behind it in its scope.
pub proof fn lemma_assigned_stays_visible(vars: Seq<Seq<char>>, nodes: Seq<NodeView>, i: int, j: int)
    requires
        0 <= i < j <= nodes.len(),
        nodes[i].ntype == NodeType::ASSIGN,
        nodes[i].value.value is Some,
    ensures
        visible_at(vars, nodes, j).contains(nodes[i].value.value->Some_0),
    decreases j,
{
    let name = nodes[i].value.value->Some_0;
    if j == i + 1 {
        let before = visible_at(vars, nodes, i);
        if !before.contains(name) {
            assert(before.push(name)[before.len() as int] == name);
        }
    } else {
        lemma_assigned_stays_visible(vars, nodes, i, j - 1);
        let before = visible_at(vars, nodes, j - 1);
        let k = choose|k: int| 0 <= k < before.len() && before[k] == name;
        assert(declare(before, nodes[j - 1])[k] == name);
    }
}

/// Only assignments make a variable visible: a name that is visible in a
/// scope was visible from outside or is assigned further up in the scope.
pub proof fn lemma_visible_was_assigned(
    vars: Seq<Seq<char>>,
    nodes: Seq<NodeView>,
    i: int,
    name: Seq<char>,
)
    requires
        0 <= i <= nodes.len(),
        visible_at(vars, nodes, i).contains(name),
    ensures
        vars.contains(name) || exists|k: int|
            0 <= k < i && (#[trigger] nodes[k]).ntype == NodeType::ASSIGN && nodes[k].value.value
                == Some(name),
    decreases i,
{
    if i > 0 {
        let before = visible_at(vars, nodes, i - 1);
        if before.contains(name) {
            lemma_visible_was_assigned(vars, nodes, i - 1, name);
        } else {
            let after = declare(before, nodes[i - 1]);
            let k = choose|k: int| 0 <= k < after.len() && after[k] == name;
            if k < before.len() {
                assert(before[k] == name);
            }
            assert(nodes[i - 1].ntype == NodeType::ASSIGN && nodes[i - 1].value.value == Some(name));
        }
    }
}

/// What an assignment generates where its variable `exists` or does not.
pub open spec fn assignment_piece(indent: Seq<char>, node: NodeView, exists: bool) -> Piece {
    Piece::of_result(indent, variable_spec(node, exists))
}

/// Shadowing in one scope: an assignment to a variable that an assignment
/// further up in the scope has assigned generates a bare assignment.
pub proof fn lemma_second_assignment_reassigns(
    indent: Seq<char>,
    vars: Seq<Seq<char>>,
    nodes: Seq<NodeView>,
    i: int,
    j: int,
)
    requires
        0 <= i < j < nodes.len(),
        nodes[i].ntype == NodeType::ASSIGN,
        nodes[j].ntype == NodeType::ASSIGN,
        nodes[i].value.value is Some,
        nodes[i].value.value == nodes[j].value.value,
    ensures
        node_piece(indent, nodes[j], visible_at(vars, nodes, j)) == assignment_piece(
            indent,
            nodes[j],
            true,
        ),
{
    lemma_assigned_stays_visible(vars, nodes, i, j);
}

/// Shadowing in one scope: the first assignment to a variable that is not
/// visible from outside generates a declaration.
pub proof fn lemma_first_assignment_declares(
    indent: Seq<char>,
    vars: Seq<Seq<char>>,
    nodes: Seq<NodeView>,
    i: int,
)
    requires
        0 <= i < nodes.len(),
        nodes[i].ntype == NodeType::ASSIGN,
        nodes[i].value.value is Some,
        !vars.contains(nodes[i].value.value->Some_0),
        forall|k: int|
            0 <= k < i ==> !((#[trigger] nodes[k]).ntype == NodeType::ASSIGN && nodes[k].value.value
                == nodes[i].value.value),
    ensures
        node_piece(indent, nodes[i], visible_at(vars, nodes, i)) == assignment_piece(
            indent,
            nodes[i],
            false,
        ),
{
    let name = nodes[i].value.value->Some_0;
    if visible_at(vars, nodes, i).contains(name) {
        lemma_visible_was_assigned(vars, nodes, i, name);
    }
}

/// Shadowing across scopes: in the body of a target, an assignment to a
/// variable that is visible where the target stands generates a bare
/// assignment; and the body of a target is generated with all that is
/// visible where the target stands.
pub proof fn lemma_nested_assignment_reassigns(
    indent: Seq<char>,
    vars: Seq<Seq<char>>,
    target: NodeView,
    j: int,
)
    requires
        target.ntype == NodeType::TARGET,
        0 <= j < target.children.len(),
        target.children[j].ntype == NodeType::ASSIGN,
        target.children[j].value.value is Some,
        vars.contains(target.children[j].value.value->Some_0),
    ensures
        node_piece(indent + "\t"@, target.children[j], visible_at(vars, target.children, j))
            == assignment_piece(indent + "\t"@, target.children[j], true),
        target_spec(target) is Ok ==> node_piece(indent, target, vars).failure == pieces_upto(
            indent + "\t"@,
            target.children,
            vars,
            target.children.len() as int,
        ).failure,
{
    lemma_outer_stays_visible(vars, target.children, j, target.children[j].value.value->Some_0);
}

/// What a target declares is not visible behind it: a target leaves what is
/// visible in its scope as it was.
pub proof fn lemma_target_declares_nothing_outside(vars: Seq<Seq<char>>, node: NodeView)
    requires
        node.ntype != NodeType::ASSIGN,
    ensures
        declare(vars, node) == vars,
{
}

/// Whether no target comes before one that stands in front of it.
pub open spec fn ordered_by_name(targets: Seq<TargetView>) -> bool {
    forall|i: int, j: int|
        0 <= i < j < targets.len() ==> !text_less(
            (#[trigger] targets[j]).target_name,
            (#[trigger] targets[i]).target_name,
        )
}

/// Inserting into targets in order leaves them in order, holds the same
/// targets and the new one, and keeps behind whatever stood behind all of them.
pub proof fn lemma_inserted(sorted: Seq<TargetView>, t: TargetView)
    requires
        ordered_by_name(sorted),
    ensures
        ordered_by_name(inserted(sorted, t)),
        inserted(sorted, t).to_multiset() == sorted.to_multiset().insert(t),
        inserted(sorted, t).len() == sorted.len() + 1,
        forall|x: Seq<char>|
            (forall|i: int| 0 <= i < sorted.len() ==> !text_less(x, #[trigger] sorted[i].target_name))
                && !text_less(x, t.target_name) ==> (forall|i: int|
                0 <= i < inserted(sorted, t).len() ==> !text_less(
                    x,
                    #[trigger] inserted(sorted, t)[i].target_name,
                )),
    decreases sorted.len(),
{
    broadcast use to_multiset_build;

    if sorted.len() == 0 {
        assert(seq![t] =~= sorted.push(t));
    } else if text_less(t.target_name, sorted.last().target_name) {
        let front = sorted.drop_last();
        let last = sorted.last();
        assert(ordered_by_name(front)) by {
            assert forall|i: int, j: int| 0 <= i < j < front.len() implies !text_less(
                (#[trigger] front[j]).target_name,
                (#[trigger] front[i]).target_name,
            ) by {
                assert(front[i] == sorted[i] && front[j] == sorted[j]);
            }
        }
        lemma_inserted(front, t);
        let inner = inserted(front, t);
        lemma_text_less_asymmetric(t.target_name, last.target_name);
        assert forall|i: int| 0 <= i < front.len() implies !text_less(
            last.target_name,
            #[trigger] front[i].target_name,
        ) by {
            assert(front[i] == sorted[i]);
        }
        assert(sorted =~= front.push(last));
        assert(inner.push(last).to_multiset() =~= sorted.to_multiset().insert(t));
        assert forall|i: int, j: int| 0 <= i < j < inner.push(last).len() implies !text_less(
            (#[trigger] inner.push(last)[j]).target_name,
            (#[trigger] inner.push(last)[i]).target_name,
        ) by {
            if j < inner.len() {
                assert(inner.push(last)[i] == inner[i] && inner.push(last)[j] == inner[j]);
            } else {
                assert(inner.push(last)[i] == inner[i]);
            }
        }
        assert forall|x: Seq<char>|
            (forall|i: int| 0 <= i < sorted.len() ==> !text_less(x, #[trigger] sorted[i].target_name))
                && !text_less(x, t.target_name) implies (forall|i: int|
            0 <= i < inserted(sorted, t).len() ==> !text_less(
                x,
                #[trigger] inserted(sorted, t)[i].target_name,
            )) by {
            assert forall|i: int| 0 <= i < front.len() implies !text_less(
                x,
                #[trigger] front[i].target_name,
            ) by {
                assert(front[i] == sorted[i]);
            }
            assert(!text_less(x, sorted[sorted.len() - 1].target_name));
            assert forall|i: int| 0 <= i < inner.push(last).len() implies !text_less(
                x,
                #[trigger] inner.push(last)[i].target_name,
            ) by {
                if i < inner.len() {
                    assert(inner.push(last)[i] == inner[i]);
                }
            }
        }
    } else {
        assert forall|i: int, j: int| 0 <= i < j < sorted.push(t).len() implies !text_less(
            (#[trigger] sorted.push(t)[j]).target_name,
            (#[trigger] sorted.push(t)[i]).target_name,
        ) by {
            if j < sorted.len() {
                assert(sorted.push(t)[i] == sorted[i] && sorted.push(t)[j] == sorted[j]);
            } else {
                assert(sorted.push(t)[i] == sorted[i]);
                if i < sorted.len() - 1 {
                    assert(!text_less(sorted[sorted.len() - 1].target_name, sorted[i].target_name));
                    lemma_text_not_less_transitive(
                        t.target_name,
                        sorted.last().target_name,
                        sorted[i].target_name,
                    );
                }
            }
        }
        assert forall|x: Seq<char>|
            (forall|i: int| 0 <= i < sorted.len() ==> !text_less(x, #[trigger] sorted[i].target_name))
                && !text_less(x, t.target_name) implies (forall|i: int|
            0 <= i < inserted(sorted, t).len() ==> !text_less(
                x,
                #[trigger] inserted(sorted, t)[i].target_name,
            )) by {
            assert forall|i: int| 0 <= i < sorted.push(t).len() implies !text_less(
                x,
                #[trigger] sorted.push(t)[i].target_name,
            ) by {
                if i < sorted.len() {
                    assert(sorted.push(t)[i] == sorted[i]);
                }
            }
        }
    }
}

/// The usage table lists the targets that were declared, each as often as
/// it was declared, and no target in it comes before one that stands in
/// front of it.
pub proof fn lemma_usage_table_sorted(targets: Seq<TargetView>)
    ensures
        ordered_by_name(sorted_by_name(targets)),
        sorted_by_name(targets).to_multiset() == targets.to_multiset(),
        sorted_by_name(targets).len() == targets.len(),
    decreases targets.len(),
{
    broadcast use to_multiset_build;

    if targets.len() > 0 {
        lemma_usage_table_sorted(targets.drop_last());
        lemma_inserted(sorted_by_name(targets.drop_last()), targets.last());
        assert(targets =~= targets.drop_last().push(targets.last()));
    } else {
        assert(targets =~= Seq::<TargetView>::empty());
    }
}

} // verus!
