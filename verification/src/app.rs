//! The browser's state and the decisions it makes on keys and on replies:
//! each decision changes the state and names the outside work to start.
use vstd::prelude::*;
use vstd::string::*;
use crate::json::JsonValue;
use crate::schema::{FieldKind, FieldView, FormField, FormMode, KindView};
use crate::text::{str_eq, views};

verus! {

#[derive(Clone, Copy, PartialEq, Eq, Debug, Structural)]
pub enum Tab {
    Overview,
    Data,
    Workflows,
}

#[derive(Clone, Copy, PartialEq, Eq, Debug, Structural)]
pub enum Focus {
    Models,
    Content,
    Outputs,
}

/// Loading content past the preview limit, waiting for confirmation.
#[derive(Clone, Copy, PartialEq, Eq, Debug, Structural)]
pub enum LargeAction {
    Latest,
    Version(u64),
    Diff(u64, u64),
}

/// What keys currently act on.
pub enum InputMode {
    Normal,
    Search,
    MethodForm,
    Review,
    /// Typing the model's name to confirm a destructive method.
    DestructiveConfirm(String),
    LargeConfirm(LargeAction),
    Help,
}

/// The selection after moving it by `direction` in a list of `length`:
/// 0 in an empty list; up stops at the top; down stops at the last entry.
pub open spec fn moved_index(current: int, length: int, direction: int) -> int {
    if length == 0 {
        0
    } else if direction < 0 {
        if current + direction < 0 {
            0
        } else {
            current + direction
        }
    } else if current + direction > length - 1 {
        length - 1
    } else {
        current + direction
    }
}

/// A selection stays in its list when it moves: in an empty list it is 0;
/// from an entry of a non-empty list it lands on an entry of that list.
pub proof fn lemma_moved_index_bounded(current: int, length: int, direction: int)
    requires
        length == 0 || 0 <= current < length,
    ensures
        length == 0 ==> moved_index(current, length, direction) == 0,
        length > 0 ==> 0 <= moved_index(current, length, direction) < length,
{
}

/// Moves a selection within a list (`moved_index`).
pub fn move_index(current: usize, length: usize, direction: isize) -> (r: usize)
    requires
        length > 0 && direction >= 0 ==> current + direction <= usize::MAX,
    ensures
        r == moved_index(current as int, length as int, direction as int),
{
    if length == 0 {
        return 0;
    }
    if direction < 0 {
        let step: usize = if direction == isize::MIN {
            (isize::MAX as usize) + 1
        } else {
            (-direction) as usize
        };
        current.saturating_sub(step)
    } else {
        let target = current + direction as usize;
        if target > length - 1 {
            length - 1
        } else {
            target
        }
    }
}

/// The first position of `v` in `s`, or -1.
pub open spec fn first_position(s: Seq<Seq<char>>, v: Seq<char>) -> int
    decreases s.len(),
{
    if s.len() == 0 {
        -1
    } else if s[0] == v {
        0
    } else {
        let r = first_position(s.drop_first(), v);
        if r < 0 {
            -1
        } else {
            r + 1
        }
    }
}

proof fn lemma_first_position(s: Seq<Seq<char>>, v: Seq<char>, i: int)
    requires
        0 <= i <= s.len(),
        forall|j: int| 0 <= j < i ==> s[j] != v,
        i == s.len() || s[i] == v,
    ensures
        first_position(s, v) == if i == s.len() {
            -1
        } else {
            i
        },
    decreases i,
{
    if i > 0 {
        let rest = s.drop_first();
        assert forall|j: int| 0 <= j < i - 1 implies rest[j] != v by {
            assert(rest[j] == s[j + 1]);
        }
        lemma_first_position(rest, v, i - 1);
    }
}

/// The position of a string in a list of strings (`position`).
pub fn position_of(values: &Vec<String>, v: &str) -> (r: Option<usize>)
    ensures
        match r {
            Some(i) => i < values.len() && i as int == first_position(views(values@), v@),
            None => first_position(views(values@), v@) == -1,
        },
{
    let ghost vs = views(values@);
    let mut i: usize = 0;
    while i < values.len()
        invariant
            i <= values.len(),
            vs == views(values@),
            forall|j: int| 0 <= j < i ==> vs[j] != v@,
        decreases values.len() - i,
    {
        if str_eq(values[i].as_str(), v) {
            proof {
                lemma_first_position(vs, v@, i as int);
            }
            return Some(i);
        }
        i = i + 1;
    }
    proof {
        lemma_first_position(vs, v@, i as int);
    }
    None
}

/// The value a Boolean or enumerated field takes when cycled: the other
/// truth value; the allowed value after the current one (the first after
/// the last; the second after a value that is not allowed).
pub open spec fn cycled_view(kind: KindView, value: Seq<char>) -> Seq<char> {
    match kind {
        KindView::Boolean => if value == "true"@ {
            "false"@
        } else {
            "true"@
        },
        KindView::Enum(vs) => if vs.len() > 0 {
            let p = first_position(vs, value);
            let index = if p < 0 {
                0
            } else {
                p
            };
            vs[(index + 1) % (vs.len() as int)]
        } else {
            value
        },
        _ => value,
    }
}

/// Cycles a Boolean or enumerated field to its next value; other fields
/// keep theirs.
pub fn cycle_field(field: &mut FormField)
    ensures
        final(field)@ == (FieldView { value: cycled_view(old(field)@.kind, old(field)@.value), ..old(field)@ }),
        final(field).path == old(field).path,
        final(field).label == old(field).label,
        final(field).description == old(field).description,
        final(field).required == old(field).required,
        final(field).secret == old(field).secret,
        final(field).kind == old(field).kind,
{
    let next: Option<String> = match &field.kind {
        FieldKind::Boolean => {
            proof {
                reveal_strlit("true");
                reveal_strlit("false");
            }
            if str_eq(field.value.as_str(), "true") {
                Some(String::from_str("false"))
            } else {
                Some(String::from_str("true"))
            }
        },
        FieldKind::Enum(values) => {
            if values.len() > 0 {
                let index: usize = match position_of(values, field.value.as_str()) {
                    Some(i) => i,
                    None => 0,
                };
                let next_index = (index + 1) % values.len();
                Some(values[next_index].clone())
            } else {
                None
            }
        },
        _ => None,
    };
    match next {
        Some(v) => {
            field.value = v;
        },
        None => {},
    }
}

} // verus!
