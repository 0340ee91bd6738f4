use crate::generator::{arg_views, target_views, Target, TargetArgView, TargetView};
use crate::text::{name_less, text_less};
use vstd::prelude::*;
use vstd::string::StringExecFns;

verus! {

/// `sorted` with `t` put behind the last target that its name does not come before.
pub open spec fn inserted(sorted: Seq<TargetView>, t: TargetView) -> Seq<TargetView>
    decreases sorted.len(),
{
    if sorted.len() == 0 {
        seq![t]
    } else if text_less(t.target_name, sorted.last().target_name) {
        inserted(sorted.drop_last(), t).push(sorted.last())
    } else {
        sorted.push(t)
    }
}

/// The targets in the order of the usage table: by name, in the order of a
/// dictionary; targets of one name stay in the order of their declaration.
pub open spec fn sorted_by_name(targets: Seq<TargetView>) -> Seq<TargetView>
    decreases targets.len(),
{
    if targets.len() == 0 {
        Seq::empty()
    } else {
        inserted(sorted_by_name(targets.drop_last()), targets.last())
    }
}

/// The targets that `order` picks out of `targets`, in its order.
pub open spec fn picked(targets: Seq<TargetView>, order: Seq<usize>) -> Seq<TargetView> {
    Seq::new(order.len(), |k: int| targets[order[k] as int])
}

/// Putting `t` in at `pos` is the insertion in order, where `t` comes before
/// all from `pos` on and not before the one in front of `pos`.
pub proof fn lemma_inserted_at(sorted: Seq<TargetView>, t: TargetView, pos: int)
    requires
        0 <= pos <= sorted.len(),
        forall|j: int| pos <= j < sorted.len() ==> text_less(t.target_name, sorted[j].target_name),
        pos > 0 ==> !text_less(t.target_name, sorted[pos - 1].target_name),
    ensures
        inserted(sorted, t) == sorted.insert(pos, t),
    decreases sorted.len(),
{
    if sorted.len() == 0 {
        assert(sorted.insert(pos, t) =~= seq![t]);
    } else if pos == sorted.len() {
        assert(sorted.insert(pos, t) =~= sorted.push(t));
    } else {
        lemma_inserted_at(sorted.drop_last(), t, pos);
        assert(sorted.drop_last().insert(pos, t).push(sorted.last()) =~= sorted.insert(pos, t));
    }
}

/// For each place of the usage table, the index of the target that stands there.
pub fn usage_order(targets: &Vec<Target>) -> (order: Vec<usize>)
    ensures
        order@.len() == targets@.len(),
        forall|k: int| 0 <= k < order@.len() ==> order@[k] < targets@.len(),
        picked(target_views(targets@), order@) == sorted_by_name(target_views(targets@)),
{
    let mut order: Vec<usize> = Vec::new();
    let ghost all = target_views(targets@);
    let mut i: usize = 0;
    proof {
        assert(all.take(0) =~= Seq::<TargetView>::empty());
        assert(picked(all, order@) =~= Seq::<TargetView>::empty());
    }
    while i < targets.len()
        invariant
            i <= targets.len(),
            all == target_views(targets@),
            order@.len() == i,
            forall|k: int| 0 <= k < order@.len() ==> order@[k] < i,
            picked(all, order@) == sorted_by_name(all.take(i as int)),
        decreases targets.len() - i,
    {
        let ghost sorted = picked(all, order@);
        let mut pos: usize = order.len();
        while pos > 0 && name_less(
            targets[i].target_name.as_str(),
            targets[order[pos - 1]].target_name.as_str(),
        )
            invariant
                pos <= order@.len(),
                i < targets.len(),
                all == target_views(targets@),
                sorted == picked(all, order@),
                forall|k: int| 0 <= k < order@.len() ==> order@[k] < i,
                forall|j: int|
                    pos <= j < sorted.len() ==> text_less(
                        all[i as int].target_name,
                        sorted[j].target_name,
                    ),
            decreases pos,
        {
            pos -= 1;
        }
        order.insert(pos, i);
        proof {
            lemma_inserted_at(sorted, all[i as int], pos as int);
            assert(picked(all, order@) =~= sorted.insert(pos as int, all[i as int]));
            assert(all.take(i + 1).drop_last() =~= all.take(i as int));
        }
        i += 1;
    }
    proof {
        assert(all.take(i as int) =~= all);
    }
    order
}

/// The help as the usage table shows it: its text, or a note where there is none.
pub open spec fn help_note(help: Option<Seq<char>>) -> Seq<char> {
    match help {
        Some(text) => text,
        None => "<No help defined>"@,
    }
}

/// Writes the help as the usage table shows it behind `out`.
fn push_help(out: &mut String, help: &Option<String>)
    ensures
        final(out)@ == old(out)@ + help_note(crate::generator::text_view(*help)),
{
    match help {
        Some(text) => out.append(text.as_str()),
        None => out.append("<No help defined>"),
    }
}

/// How the output writes whether an argument is required.
pub open spec fn flag_text(required: bool) -> Seq<char> {
    if required {
        "true"@
    } else {
        "false"@
    }
}

/// The arguments of one target as its entry of the usage table lists them.
pub open spec fn args_text(args: Seq<TargetArgView>) -> Seq<char>
    decreases args.len(),
{
    if args.len() == 0 {
        Seq::empty()
    } else {
        let arg = args.last();
        args_text(args.drop_last()) + ", __ARG("@ + flag_text(arg.required) + ", R\"__DOIT__("@
            + arg.arg_name + ")__DOIT__\", R\"__DOIT__("@ + help_note(arg.arg_help)
            + ")__DOIT__\")"@
    }
}

/// The entry of the usage table for one target.
pub open spec fn entry_text(target: TargetView) -> Seq<char> {
    "\n\t\t__HELP("@ + target.target_name + ", R\"__DOIT__("@ + help_note(target.target_help)
        + ")__DOIT__\""@ + args_text(target.target_args) + "),"@
}

/// The entries of the usage table for the targets, in their order.
pub open spec fn entries_text(targets: Seq<TargetView>) -> Seq<char>
    decreases targets.len(),
{
    if targets.len() == 0 {
        Seq::empty()
    } else {
        entries_text(targets.drop_last()) + entry_text(targets.last())
    }
}

/// The entries of the usage table: one for each target, sorted by name.
pub open spec fn table_text(targets: Seq<TargetView>) -> Seq<char> {
    entries_text(sorted_by_name(targets))
}

/// Writes the entry of the usage table for one target behind `out`.
fn push_entry(out: &mut String, target: &Target)
    ensures
        final(out)@ == old(out)@ + entry_text(target@),
{
    let ghost start = out@;
    out.append("\n\t\t__HELP(");
    out.append(target.target_name.as_str());
    out.append(", R\"__DOIT__(");
    push_help(out, &target.target_help);
    out.append(")__DOIT__\"");
    let ghost head = out@;
    let mut i: usize = 0;
    while i < target.target_args.len()
        invariant
            i <= target.target_args.len(),
            out@ == head + args_text(arg_views(target.target_args@).take(i as int)),
        decreases target.target_args.len() - i,
    {
        let arg = &target.target_args[i];
        let ghost sofar = args_text(arg_views(target.target_args@).take(i as int));
        out.append(", __ARG(");
        if arg.required {
            out.append("true");
        } else {
            out.append("false");
        }
        out.append(", R\"__DOIT__(");
        out.append(arg.arg_name.as_str());
        out.append(")__DOIT__\", R\"__DOIT__(");
        push_help(out, &arg.arg_help);
        out.append(")__DOIT__\")");
        proof {
            let next = arg_views(target.target_args@).take(i + 1);
            assert(next.drop_last() =~= arg_views(target.target_args@).take(i as int));
            assert(next.last() == arg@);
            assert(out@ =~= head + (sofar + ", __ARG("@ + flag_text(arg.required)
                + ", R\"__DOIT__("@ + arg.arg_name@ + ")__DOIT__\", R\"__DOIT__("@ + help_note(
                arg@.arg_help,
            )
                + ")__DOIT__\")"@));
        }
        i += 1;
    }
    out.append("),");
    proof {
        assert(arg_views(target.target_args@).take(i as int) =~= arg_views(target.target_args@));
        assert(out@ =~= start + entry_text(target@));
    }
}

/// The entries of the usage table: one for each target, sorted by name.
pub fn help_table(targets: &Vec<Target>) -> (r: String)
    ensures
        r@ == table_text(target_views(targets@)),
{
    let order = usage_order(targets);
    let ghost sorted = sorted_by_name(target_views(targets@));
    let mut out = String::new();
    let mut k: usize = 0;
    while k < order.len()
        invariant
            k <= order.len(),
            order@.len() == targets@.len(),
            forall|j: int| 0 <= j < order@.len() ==> order@[j] < targets@.len(),
            sorted == picked(target_views(targets@), order@),
            out@ == entries_text(sorted.take(k as int)),
        decreases order.len() - k,
    {
        let ghost sofar = out@;
        push_entry(&mut out, &targets[order[k]]);
        proof {
            let next = sorted.take(k + 1);
            assert(next.drop_last() =~= sorted.take(k as int));
            assert(next.last() == targets@[order@[k as int] as int]@);
        }
        k += 1;
    }
    proof {
        assert(sorted.take(k as int) =~= sorted);
    }
    out
}

/// The dispatch chain: one match for each target, in the order of their declaration.
pub open spec fn matches_text(targets: Seq<TargetView>) -> Seq<char>
    decreases targets.len(),
{
    if targets.len() == 0 {
        Seq::empty()
    } else {
        matches_text(targets.drop_last()) + "\n\t__MATCH("@ + targets.last().target_name + ");"@
    }
}

/// The dispatch chain: one match for each target, in the order of their declaration.
pub fn target_matches(targets: &Vec<Target>) -> (r: String)
    ensures
        r@ == matches_text(target_views(targets@)),
{
    let ghost all = target_views(targets@);
    let mut out = String::new();
    let mut i: usize = 0;
    while i < targets.len()
        invariant
            i <= targets.len(),
            all == target_views(targets@),
            out@ == matches_text(all.take(i as int)),
        decreases targets.len() - i,
    {
        let ghost sofar = out@;
        out.append("\n\t__MATCH(");
        out.append(targets[i].target_name.as_str());
        out.append(");");
        proof {
            let next = all.take(i + 1);
            assert(next.drop_last() =~= all.take(i as int));
            assert(next.last() == targets@[i as int]@);
            assert(out@ =~= sofar + "\n\t__MATCH("@ + targets@[i as int].target_name@ + ");"@);
        }
        i += 1;
    }
    proof {
        assert(all.take(i as int) =~= all);
    }
    out
}

} // verus!
