//! Instruction logs, their compaction into one instruction per address, label
//! resolution, and the contiguous byte image.
use vstd::prelude::*;
use crate::instruction::{encode, Instruction, InstructionLinkedData, InstructionModel, LinkedDataModel};

verus! {

/// Instructions with their addresses, as a sequence of mathematical values.
pub open spec fn code_view(v: Seq<(u16, Instruction)>) -> Seq<(u16, InstructionModel)> {
    v.map_values(|e: (u16, Instruction)| (e.0, e.1@))
}

/// Label definitions as a sequence of mathematical values.
pub open spec fn labels_view(v: Seq<(String, u16)>) -> Seq<(Seq<char>, u16)> {
    v.map_values(|e: (String, u16)| (e.0@, e.1))
}

/// The instruction a log places at `a`: the last one written there.
pub open spec fn log_lookup(code: Seq<(u16, InstructionModel)>, a: int) -> Option<InstructionModel>
    decreases code.len(),
{
    if code.len() == 0 {
        None
    } else if code.last().0 == a {
        Some(code.last().1)
    } else {
        log_lookup(code.drop_last(), a)
    }
}

/// One past the index of the last entry of the log at `a`; zero when there is none.
pub open spec fn last_slot(code: Seq<(u16, InstructionModel)>, a: int) -> nat
    decreases code.len(),
{
    if code.len() == 0 {
        0
    } else if code.last().0 == a {
        code.len()
    } else {
        last_slot(code.drop_last(), a)
    }
}

/// The log's instructions at addresses below `n`, one per address, in address order.
pub open spec fn compact_upto(code: Seq<(u16, InstructionModel)>, n: nat) -> Seq<
    (u16, InstructionModel),
>
    decreases n,
{
    if n == 0 {
        seq![]
    } else {
        let prev = compact_upto(code, (n - 1) as nat);
        match log_lookup(code, n - 1) {
            Some(i) => prev.push(((n - 1) as u16, i)),
            None => prev,
        }
    }
}

/// The log as an address map: one instruction per address, the last one written,
/// in address order.
pub open spec fn compact(code: Seq<(u16, InstructionModel)>) -> Seq<(u16, InstructionModel)> {
    compact_upto(code, 65536)
}

/// Addresses strictly increase along the sequence.
pub open spec fn ascending(e: Seq<(u16, InstructionModel)>) -> bool {
    forall|i: int, j: int| 0 <= i < j < e.len() ==> e[i].0 < e[j].0
}

/// Every instruction ends within the 16-bit address space: its last byte is at most
/// `$FFFF`.
pub open spec fn fits(e: Seq<(u16, InstructionModel)>) -> bool {
    forall|j: int| 0 <= j < e.len() ==> e[j].0 + e[j].1.size <= 65536
}

/// Bytes from the lowest address to the end of the instruction at the highest one.
pub open spec fn entries_span(e: Seq<(u16, InstructionModel)>) -> int {
    if e.len() == 0 {
        0
    } else {
        e.last().0 - e[0].0 + e.last().1.size
    }
}

/// The address a label name stands for; a later definition wins.
pub open spec fn label_lookup(labels: Seq<(Seq<char>, u16)>, name: Seq<char>) -> Option<u16>
    decreases labels.len(),
{
    if labels.len() == 0 {
        None
    } else if labels.last().0 == name {
        Some(labels.last().1)
    } else {
        label_lookup(labels.drop_last(), name)
    }
}

/// The instruction with its label operand replaced by the label's address;
/// `None` when the label is not defined.
pub open spec fn resolve_one(i: InstructionModel, labels: Seq<(Seq<char>, u16)>) -> Option<
    InstructionModel,
> {
    match i.linked_data {
        Some(LinkedDataModel::NotResolvedRelative(n)) => match label_lookup(labels, n) {
            Some(a) => Some(
                InstructionModel { linked_data: Some(LinkedDataModel::Relative(a)), ..i },
            ),
            None => None,
        },
        _ => Some(i),
    }
}

/// The label name of the first instruction, in order, whose label is not defined.
pub open spec fn first_unresolved(e: Seq<(u16, InstructionModel)>, labels: Seq<(Seq<char>, u16)>) -> Option<Seq<char>>
    decreases e.len(),
{
    if e.len() == 0 {
        None
    } else if resolve_one(e[0].1, labels) is None {
        match e[0].1.linked_data {
            Some(LinkedDataModel::NotResolvedRelative(n)) => Some(n),
            _ => None,
        }
    } else {
        first_unresolved(e.drop_first(), labels)
    }
}

/// `last_slot` finds the entry that `log_lookup` reads.
pub proof fn lemma_last_slot(code: Seq<(u16, InstructionModel)>, a: int)
    ensures
        last_slot(code, a) <= code.len(),
        last_slot(code, a) == 0 ==> log_lookup(code, a) is None,
        last_slot(code, a) > 0 ==> code[last_slot(code, a) - 1].0 == a && log_lookup(code, a)
            == Some(code[last_slot(code, a) - 1].1),
    decreases code.len(),
{
    if code.len() > 0 && code.last().0 != a {
        lemma_last_slot(code.drop_last(), a);
    }
}

/// Builds the address map of a log: one instruction per address, the last one
/// written there, in increasing address order.
pub fn compact_code(code: &Vec<(u16, Instruction)>) -> (r: Vec<(u16, Instruction)>)
    ensures
        code_view(r@) == compact(code_view(code@)),
        ascending(code_view(r@)),
        fits(code_view(code@)) ==> fits(code_view(r@)),
{
    let ghost log = code_view(code@);
    let mut slot: Vec<usize> = Vec::new();
    let mut a: usize = 0;
    while a < 65536
        invariant
            a <= 65536,
            slot@.len() == a,
            forall|k: int| 0 <= k < a ==> slot@[k] == 0,
        decreases 65536 - a,
    {
        slot.push(0);
        a = a + 1;
    }
    let mut i: usize = 0;
    while i < code.len()
        invariant
            i <= code@.len(),
            log == code_view(code@),
            slot@.len() == 65536,
            forall|k: int| 0 <= k < 65536 ==> #[trigger] slot@[k] == last_slot(log.subrange(0, i as int), k),
        decreases code@.len() - i,
    {
        let ghost prev = log.subrange(0, i as int);
        let ghost next = log.subrange(0, i + 1);
        assert(next.drop_last() == prev);
        let at = code[i].0 as usize;
        slot.set(at, i + 1);
        assert forall|k: int| 0 <= k < 65536 implies #[trigger] slot@[k] == last_slot(next, k) by {
            assert(next.last().0 == at);
        }
        i = i + 1;
    }
    assert(log.subrange(0, code@.len() as int) == log);
    let mut r: Vec<(u16, Instruction)> = Vec::new();
    let mut a: usize = 0;
    while a < 65536
        invariant
            a <= 65536,
            log == code_view(code@),
            slot@.len() == 65536,
            forall|k: int| 0 <= k < 65536 ==> #[trigger] slot@[k] == last_slot(log, k),
            code_view(r@) == compact_upto(log, a as nat),
            ascending(code_view(r@)),
            fits(log) ==> fits(code_view(r@)),
            forall|j: int| 0 <= j < r@.len() ==> r@[j].0 < a,
        decreases 65536 - a,
    {
        proof {
            lemma_last_slot(log, a as int);
        }
        let s = slot[a];
        if s > 0 {
            let copy = code[s - 1].1.duplicate();
            r.push((a as u16, copy));
            assert(code_view(r@) =~= compact_upto(log, (a + 1) as nat));
        } else {
            assert(code_view(r@) =~= compact_upto(log, (a + 1) as nat));
        }
        a = a + 1;
    }
    r
}


proof fn lemma_label_prefix(labels: Seq<(Seq<char>, u16)>, i: int)
    requires
        0 < i <= labels.len(),
    ensures
        labels.subrange(0, i).drop_last() == labels.subrange(0, i - 1),
        labels.subrange(0, i).last() == labels[i - 1],
{
    assert(labels.subrange(0, i).drop_last() =~= labels.subrange(0, i - 1));
}

/// The address of the last definition of `name`.
pub fn find_label(labels: &Vec<(String, u16)>, name: &String) -> (r: Option<u16>)
    ensures
        r == label_lookup(labels_view(labels@), name@),
{
    let ghost lv = labels_view(labels@);
    let mut i: usize = labels.len();
    assert(lv.subrange(0, i as int) =~= lv);
    while i > 0
        invariant
            i <= labels@.len(),
            lv == labels_view(labels@),
            label_lookup(lv, name@) == label_lookup(lv.subrange(0, i as int), name@),
        decreases i,
    {
        proof {
            lemma_label_prefix(lv, i as int);
        }
        if labels[i - 1].0.eq(name) {
            return Some(labels[i - 1].1);
        }
        i = i - 1;
    }
    None
}

/// Every entry with its label resolved, when all labels are defined.
pub open spec fn resolve_all(e: Seq<(u16, InstructionModel)>, labels: Seq<(Seq<char>, u16)>) -> Seq<
    (u16, InstructionModel),
> {
    e.map_values(|x: (u16, InstructionModel)| (x.0, resolve_one(x.1, labels)->0))
}

/// Replaces every label operand by the label's address; fails with the name of the
/// first label, in order, that is not defined.
pub fn resolve_entries(e: &Vec<(u16, Instruction)>, labels: &Vec<(String, u16)>) -> (r: Result<
    Vec<(u16, Instruction)>,
    String,
>)
    ensures
        match r {
            Ok(v) => first_unresolved(code_view(e@), labels_view(labels@)) is None && code_view(v@)
                == resolve_all(code_view(e@), labels_view(labels@)),
            Err(n) => first_unresolved(code_view(e@), labels_view(labels@)) == Some(n@),
        },
{
    let ghost ev = code_view(e@);
    let ghost lv = labels_view(labels@);
    let mut out: Vec<(u16, Instruction)> = Vec::new();
    let mut i: usize = 0;
    assert(ev.subrange(0, ev.len() as int) =~= ev);
    assert(code_view(out@) =~= resolve_all(ev, lv).subrange(0, 0));
    while i < e.len()
        invariant
            i <= e@.len(),
            ev == code_view(e@),
            lv == labels_view(labels@),
            first_unresolved(ev, lv) == first_unresolved(ev.subrange(i as int, ev.len() as int), lv),
            out@.len() == i,
            code_view(out@) == resolve_all(ev, lv).subrange(0, i as int),
            forall|j: int| 0 <= j < i ==> resolve_one(#[trigger] ev[j].1, lv) is Some,
        decreases e@.len() - i,
    {
        let ghost rest = ev.subrange(i as int, ev.len() as int);
        assert(rest.drop_first() =~= ev.subrange(i + 1, ev.len() as int));
        assert(rest[0] == ev[i as int]);
        let (a, ins) = (e[i].0, &e[i].1);
        let resolved = match &ins.linked_data {
            Some(InstructionLinkedData::NotResolvedRelative(name)) => match find_label(labels, name) {
                Some(target) => Instruction {
                    opcode: ins.opcode,
                    addressing_mode: ins.addressing_mode,
                    data: ins.data,
                    size: ins.size,
                    linked_data: Some(InstructionLinkedData::Relative(target)),
                },
                None => {
                    return Err(name.clone());
                },
            },
            _ => ins.duplicate(),
        };
        proof {
            let want = resolve_one(ev[i as int].1, lv);
            assert(want is Some);
            assert(want->0 == resolved@);
        }
        out.push((a, resolved));
        assert(code_view(out@) =~= resolve_all(ev, lv).subrange(0, i + 1));
        i = i + 1;
    }
    assert(code_view(out@) =~= resolve_all(ev, lv));
    Ok(out)
}

/// Resolution keeps every address and size, so it keeps an address map ascending
/// and every instruction within the address space.
pub proof fn lemma_resolve_all_shape(e: Seq<(u16, InstructionModel)>, labels: Seq<(Seq<char>, u16)>)
    requires
        first_unresolved(e, labels) is None,
    ensures
        resolve_all(e, labels).len() == e.len(),
        forall|i: int|
            0 <= i < e.len() ==> (#[trigger] resolve_all(e, labels)[i]).0 == e[i].0 && resolve_all(
                e,
                labels,
            )[i].1.size == e[i].1.size,
        ascending(e) ==> ascending(resolve_all(e, labels)),
        fits(e) ==> fits(resolve_all(e, labels)),
    decreases e.len(),
{
    if e.len() > 0 {
        lemma_resolve_all_shape(e.drop_first(), labels);
        assert forall|i: int| 0 <= i < e.len() implies (#[trigger] resolve_all(e, labels)[i]).0
            == e[i].0 && resolve_all(e, labels)[i].1.size == e[i].1.size by {
            if i > 0 {
                assert(e.drop_first()[i - 1] == e[i]);
                assert(resolve_all(e.drop_first(), labels)[i - 1] == resolve_all(e, labels)[i]);
            }
        }
    }
}

/// `bytes` written over `img` from offset `off`, dropping what falls past its end.
pub open spec fn write_bytes(img: Seq<u8>, off: int, bytes: Seq<u8>) -> Seq<u8> {
    Seq::new(img.len(), |p: int| if off <= p < off + bytes.len() { bytes[p - off] } else { img[p] })
}

/// The image after the first `k` instructions, in address order, are written over
/// zeros, each at its offset from the lowest address.
pub open spec fn paint(e: Seq<(u16, InstructionModel)>, k: nat) -> Seq<u8>
    decreases k,
{
    if k == 0 {
        Seq::new(entries_span(e) as nat, |p: int| 0u8)
    } else {
        write_bytes(paint(e, (k - 1) as nat), e[k - 1].0 - e[0].0, encode(e[k - 1].1))
    }
}

/// The contiguous byte image of an address map.
pub open spec fn image(e: Seq<(u16, InstructionModel)>) -> Seq<u8> {
    paint(e, e.len())
}

/// Span of an ascending address map whose instructions end within the address space;
/// at most 65536.
pub fn span_of(e: &Vec<(u16, Instruction)>) -> (r: u32)
    requires
        ascending(code_view(e@)),
        fits(code_view(e@)),
    ensures
        r == entries_span(code_view(e@)),
        r <= 65536,
{
    let n = e.len();
    if n == 0 {
        return 0;
    }
    let ghost ev = code_view(e@);
    assert(ev[0].0 <= ev[n - 1].0);
    assert(ev[n - 1].0 + ev[n - 1].1.size <= 65536);
    e[n - 1].0 as u32 - e[0].0 as u32 + e[n - 1].1.size as u32
}

/// Lays an ascending address map out as one zero-filled buffer from its lowest address.
pub fn build_image(e: &Vec<(u16, Instruction)>) -> (r: Vec<u8>)
    requires
        ascending(code_view(e@)),
        fits(code_view(e@)),
    ensures
        r@ == image(code_view(e@)),
        r@.len() == entries_span(code_view(e@)),
{
    let ghost ev = code_view(e@);
    let span = span_of(e) as usize;
    let mut memory: Vec<u8> = Vec::new();
    while memory.len() < span
        invariant
            memory@.len() <= span,
            forall|p: int| 0 <= p < memory@.len() ==> memory@[p] == 0u8,
        decreases span - memory@.len(),
    {
        memory.push(0);
    }
    assert(memory@ =~= paint(ev, 0));
    if e.len() == 0 {
        return memory;
    }
    let base = e[0].0;
    let mut k: usize = 0;
    while k < e.len()
        invariant
            0 < e@.len(),
            k <= e@.len(),
            ev == code_view(e@),
            ascending(ev),
            base == ev[0].0,
            span == entries_span(ev),
            memory@.len() == span,
            memory@ == paint(ev, k as nat),
        decreases e@.len() - k,
    {
        let ghost prev = memory@;
        let bytes = e[k].1.to_bytes();
        assert(k == 0 || ev[0].0 < ev[k as int].0);
        let off = (e[k].0 - base) as usize;
        let mut j: usize = 0;
        while j < bytes.len()
            invariant
                j <= bytes@.len(),
                memory@.len() == prev.len(),
                prev.len() == span,
                forall|p: int|
                    0 <= p < span ==> #[trigger] memory@[p] == if off <= p < off + j {
                        bytes@[p - off]
                    } else {
                        prev[p]
                    },
            decreases bytes@.len() - j,
        {
            if off <= span && j < span - off {
                memory.set(off + j, bytes[j]);
            }
            j = j + 1;
        }
        assert(memory@ =~= write_bytes(prev, off as int, bytes@));
        k = k + 1;
    }
    memory
}

} // verus!
