//! The keys of the rows of a stored table, and the rule by which a new row
//! finds its place among the rows that a table holds.

use vstd::prelude::*;

verus! {

/// The key of a stored row: the name of its table and its number there.
#[derive(Clone, Debug)]
pub struct DataKey {
    pub table_name: Vec<u8>,
    pub id: u64,
}

/// Where a new row goes in a table.
#[derive(Debug, Clone, Copy, PartialEq, Eq)]
pub enum Place {
    /// After the rows that are there, under the given number.
    Append(u64),
    /// In the place of the row at the given position, under its number.
    Replace(usize),
}

/// The first position from `i` on at which the number `id` stands.
pub open spec fn position_of(ids: Seq<u64>, id: u64, i: int) -> Option<int>
    decreases ids.len() - i,
{
    if i < 0 || i >= ids.len() {
        None
    } else if ids[i] == id {
        Some(i)
    } else {
        position_of(ids, id, i + 1)
    }
}

/// Where a new row goes in a table whose rows have the numbers `ids`, the
/// table being in use under the number `id`. A table that has no rows yet
/// takes the row under `id`. With `id` 0 the row is added under the count
/// of the rows plus one. Else the row takes the place of the first row
/// that has the number `id`, or is added under it where none has.
pub open spec fn spec_place(ids: Option<Seq<u64>>, id: u64) -> Place {
    match ids {
        None => Place::Append(id),
        Some(ids) => if id == 0 {
            Place::Append((ids.len() + 1) as u64)
        } else {
            match position_of(ids, id, 0) {
                Some(i) => Place::Replace(i as usize),
                None => Place::Append(id),
            }
        },
    }
}

/// Finds the place of a new row in a table.
pub fn place(ids: Option<&Vec<u64>>, id: u64) -> (r: Place)
    requires
        ids matches Some(v) ==> v@.len() < u64::MAX,
    ensures
        r == spec_place(
            match ids {
                Some(v) => Some(v@),
                None => None,
            },
            id,
        ),
        r matches Place::Replace(i) ==> ids matches Some(v) && i < v@.len(),
{
    match ids {
        None => Place::Append(id),
        Some(v) => {
            if id == 0 {
                Place::Append(v.len() as u64 + 1)
            } else {
                let mut i: usize = 0;
                while i < v.len()
                    invariant
                        ids == Some(v),
                        id != 0,
                        i <= v@.len(),
                        position_of(v@, id, 0) == position_of(v@, id, i as int),
                    decreases v@.len() - i,
                {
                    if v[i] == id {
                        return Place::Replace(i);
                    }
                    i += 1;
                }
                Place::Append(id)
            }
        },
    }
}

} // verus!
