//! Values that a response may leave out.

use vstd::prelude::*;

verus! {

/// The rows of a response that are there, in order: a response may hold
/// absent rows, which a table passes over.
pub open spec fn present<R>(raws: Seq<Option<R>>) -> Seq<R>
    decreases raws.len(),
{
    if raws.len() == 0 {
        Seq::empty()
    } else {
        match raws.last() {
            Some(raw) => present(raws.drop_last()).push(raw),
            None => present(raws.drop_last()),
        }
    }
}

/// The rows of a response that are there, in order.
pub fn present_rows<R>(raws: &Vec<Option<R>>) -> (rows: Vec<&R>)
    ensures
        rows@.map_values(|row: &R| *row) == present(raws@),
{
    let mut rows: Vec<&R> = Vec::new();
    let mut at: usize = 0;
    assert(raws@.take(0) =~= Seq::<Option<R>>::empty());
    while at < raws.len()
        invariant
            at <= raws.len(),
            rows@.map_values(|row: &R| *row) == present(raws@.take(at as int)),
        decreases raws.len() - at,
    {
        let ghost before = rows@.map_values(|row: &R| *row);
        proof {
            assert(raws@.take(at + 1).drop_last() =~= raws@.take(at as int));
        }
        match &raws[at] {
            Some(raw) => {
                rows.push(raw);
                assert(rows@.map_values(|row: &R| *row) =~= before.push(*raw));
            },
            None => {},
        }
        at += 1;
    }
    assert(raws@.take(at as int) =~= raws@);
    rows
}

/// A copy of a text that may be absent.
pub fn copy_of(text: &Option<String>) -> (copy: Option<String>)
    ensures
        copy == *text,
{
    match text {
        Some(text) => Some(text.clone()),
        None => None,
    }
}

} // verus!
