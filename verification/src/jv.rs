use vstd::prelude::*;

verus! {

/// The abstract shape of a JSON document, as far as this tool reads one:
/// strings, booleans, numbers, arrays and objects. A number stored as a
/// plain unscaled integer carries its value in `Num`; every other numeric
/// representation is `NumOther`, which no integer accessor accepts.
/// Object entry order is not modelled.
pub enum Jv {
    Null,
    Bool(bool),
    Num(int),
    NumOther,
    Str(Seq<char>),
    Arr(Seq<Jv>),
    Obj(Map<Seq<char>, Jv>),
}

/// `j` is an object with an entry under `k`.
pub open spec fn obj_has(j: Jv, k: Seq<char>) -> bool {
    j is Obj && j->Obj_0.dom().contains(k)
}

/// Member access as `JsonValue` indexing does it: the entry under `k`, or
/// null when `j` is no object or has no such entry.
pub open spec fn obj_get(j: Jv, k: Seq<char>) -> Jv {
    if obj_has(j, k) {
        j->Obj_0[k]
    } else {
        Jv::Null
    }
}

/// Element access as `JsonValue` indexing does it: the `i`-th element, or
/// null when `j` is no array or `i` is out of range.
pub open spec fn arr_at(j: Jv, i: int) -> Jv {
    if j is Arr && 0 <= i < j->Arr_0.len() {
        j->Arr_0[i]
    } else {
        Jv::Null
    }
}

/// How many elements `members()` yields: an array's length, else zero.
pub open spec fn arr_len(j: Jv) -> int {
    if j is Arr {
        j->Arr_0.len() as int
    } else {
        0
    }
}

/// What `as_str` yields: the characters of a string value, else nothing.
pub open spec fn str_of(j: Jv) -> Option<Seq<char>> {
    if j is Str {
        Some(j->Str_0)
    } else {
        None
    }
}

/// What `as_u32` yields: the value of an exact integer between 0 and
/// `u32::MAX`, else nothing.
pub open spec fn u32_of(j: Jv) -> Option<u32> {
    match j {
        Jv::Num(n) => if 0 <= n <= u32::MAX {
            Some(n as u32)
        } else {
            None
        },
        _ => None,
    }
}

/// What `as_bool` yields: a boolean value, else nothing.
pub open spec fn bool_of(j: Jv) -> Option<bool> {
    match j {
        Jv::Bool(b) => Some(b),
        _ => None,
    }
}

} // verus!
