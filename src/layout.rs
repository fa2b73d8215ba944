use vstd::prelude::*;
use crate::isa::{arg_count, slots, InsnV, Label, LabelV, Program};

verus! {

/// Slots taken by a run of instructions: one per selector, one per operand.
pub open spec fn block_slots(insns: Seq<InsnV>) -> nat
    decreases insns.len(),
{
    if insns.len() == 0 {
        0
    } else {
        block_slots(insns.drop_last()) + slots(insns.last())
    }
}

/// Slots taken by the first `i` labels.
pub open spec fn slots_before(labels: Seq<LabelV>, i: int) -> nat
    decreases i,
{
    if i <= 0 {
        0
    } else {
        slots_before(labels, i - 1) + block_slots(labels[i - 1].insns)
    }
}

/// Slots taken by the whole program.
pub open spec fn total_slots(labels: Seq<LabelV>) -> nat {
    slots_before(labels, labels.len() as int)
}

/// The first index at or after `j` of a label called `name`.
pub open spec fn first_index(labels: Seq<LabelV>, name: Seq<char>, j: int) -> Option<int>
    decreases labels.len() - j,
{
    if j < 0 || j >= labels.len() {
        None
    } else if labels[j].name == name {
        Some(j)
    } else {
        first_index(labels, name, j + 1)
    }
}

/// The address of the label called `name`: the slots of all labels before it.
pub open spec fn label_addr(labels: Seq<LabelV>, name: Seq<char>) -> Option<nat> {
    match first_index(labels, name, 0) {
        Some(j) => Some(slots_before(labels, j)),
        None => None,
    }
}

/// No two labels share a name.
pub open spec fn unique_names(labels: Seq<LabelV>) -> bool {
    forall|i: int, j: int|
        0 <= i < j < labels.len() ==> #[trigger] labels[i].name != #[trigger] labels[j].name
}

/// A run of instructions takes at least as many slots as any prefix of it.
pub proof fn lemma_block_slots_prefix(insns: Seq<InsnV>, k: int)
    requires
        0 <= k <= insns.len(),
    ensures
        block_slots(insns.take(k)) <= block_slots(insns),
    decreases insns.len(),
{
    if k < insns.len() {
        assert(insns.take(k) =~= insns.drop_last().take(k));
        lemma_block_slots_prefix(insns.drop_last(), k);
    } else {
        assert(insns.take(k) =~= insns);
    }
}

/// More labels take at least as many slots.
pub proof fn lemma_slots_before_monotone(labels: Seq<LabelV>, i: int, j: int)
    requires
        i <= j,
    ensures
        slots_before(labels, i) <= slots_before(labels, j),
    decreases j - i,
{
    if i < j {
        lemma_slots_before_monotone(labels, i, j - 1);
    }
}

/// With unique names, the search for a label's name from any earlier index finds that label.
proof fn lemma_first_index_at(labels: Seq<LabelV>, i: int, j: int)
    requires
        unique_names(labels),
        0 <= j <= i < labels.len(),
    ensures
        first_index(labels, labels[i].name, j) == Some(i),
    decreases i - j,
{
    if j < i {
        assert(labels[j].name != labels[i].name);
        lemma_first_index_at(labels, i, j + 1);
    }
}

/// In a program whose label names are unique, each label's address is the
/// number of slots of the labels before it.
pub proof fn lemma_label_addr_index(labels: Seq<LabelV>, i: int)
    requires
        unique_names(labels),
        0 <= i < labels.len(),
    ensures
        label_addr(labels, labels[i].name) == Some(slots_before(labels, i)),
{
    lemma_first_index_at(labels, i, 0);
}

/// The first label of a program starts at address 0.
pub proof fn lemma_first_label_at_zero(labels: Seq<LabelV>)
    requires
        labels.len() > 0,
    ensures
        label_addr(labels, labels[0].name) == Some(0nat),
{
}

/// In a program whose label names are unique, each label starts where the one
/// before it ends: its address is the previous label's address plus the slots,
/// one plus the arity, of each instruction of the previous label.
pub proof fn lemma_next_label_address(labels: Seq<LabelV>, i: int)
    requires
        unique_names(labels),
        0 <= i,
        i + 1 < labels.len(),
    ensures
        label_addr(labels, labels[i + 1].name) == Some(
            label_addr(labels, labels[i].name)->0 + block_slots(labels[i].insns),
        ),
{
    lemma_label_addr_index(labels, i);
    lemma_label_addr_index(labels, i + 1);
}

/// `acc` plus the slots of the label `l`, where that fits in `usize`.
fn add_block(acc: usize, l: &Label) -> (r: Option<usize>)
    ensures
        r == (if acc + block_slots(l@.insns) <= usize::MAX {
            Some((acc + block_slots(l@.insns)) as usize)
        } else {
            None::<usize>
        }),
{
    let ghost insns = l@.insns;
    let mut sum: usize = acc;
    let mut k: usize = 0;
    while k < l.instructions.len()
        invariant
            k <= l.instructions.len(),
            insns == l@.insns,
            insns.len() == l.instructions.len(),
            sum == acc + block_slots(insns.take(k as int)),
        decreases l.instructions.len() - k,
    {
        assert(insns.take(k + 1).drop_last() =~= insns.take(k as int));
        assert(insns[k as int] == l.instructions@[k as int]@);
        let n = arg_count(&l.instructions[k]);
        if sum > usize::MAX - 1 - n {
            proof {
                lemma_block_slots_prefix(insns, k + 1);
            }
            return None;
        }
        sum = sum + 1 + n;
        k = k + 1;
    }
    assert(insns.take(k as int) =~= insns);
    Some(sum)
}

impl Program {
    /// Label names are unique and every address fits in `usize`.
    pub open spec fn wf(&self) -> bool {
        unique_names(self@) && total_slots(self@) <= usize::MAX
    }

    /// An empty program.
    pub fn new() -> (r: Program)
        ensures
            r@ == Seq::<LabelV>::empty(),
            r.wf(),
    {
        Program { labels: Vec::new() }
    }

    /// The number of slots the whole program takes, where it fits in `usize`.
    pub fn slot_count(&self) -> (r: Option<usize>)
        ensures
            r == (if total_slots(self@) <= usize::MAX {
                Some(total_slots(self@) as usize)
            } else {
                None::<usize>
            }),
    {
        let mut acc: usize = 0;
        let mut j: usize = 0;
        while j < self.labels.len()
            invariant
                j <= self.labels.len(),
                self@.len() == self.labels.len(),
                acc == slots_before(self@, j as int),
            decreases self.labels.len() - j,
        {
            match add_block(acc, &self.labels[j]) {
                Some(a) => {
                    acc = a;
                },
                None => {
                    proof {
                        lemma_slots_before_monotone(self@, j + 1, self@.len() as int);
                    }
                    return None;
                },
            }
            j = j + 1;
        }
        Some(acc)
    }

    /// The address of the label called `needle`, or `None` where no label has that name.
    pub fn find_label_start_index(&self, needle: &String) -> (r: Option<usize>)
        requires
            total_slots(self@) <= usize::MAX,
        ensures
            r matches Some(a) ==> label_addr(self@, needle@) == Some(a as nat),
            r is None ==> label_addr(self@, needle@) is None,
    {
        let mut acc: usize = 0;
        let mut j: usize = 0;
        while j < self.labels.len()
            invariant
                j <= self.labels.len(),
                self@.len() == self.labels.len(),
                total_slots(self@) <= usize::MAX,
                acc == slots_before(self@, j as int),
                first_index(self@, needle@, 0) == first_index(self@, needle@, j as int),
            decreases self.labels.len() - j,
        {
            if self.labels[j].name == *needle {
                return Some(acc);
            }
            proof {
                lemma_slots_before_monotone(self@, j + 1, self@.len() as int);
            }
            match add_block(acc, &self.labels[j]) {
                Some(a) => {
                    acc = a;
                },
                None => {
                    return None;
                },
            }
            j = j + 1;
        }
        None
    }
}

} // verus!
