//! What JSON values hold.

use crate::json;
use crate::json::JsonView;
use vstd::prelude::*;
use vstd::string::*;

verus! {

/// Whether a value is an object with this member.
pub open spec fn holds(j: JsonView, key: Seq<char>, value: JsonView) -> bool {
    j matches JsonView::Object(fields) && fields.contains((key, value))
}

/// Whether a value is an object with a member of this key.
pub open spec fn has_key(j: JsonView, key: Seq<char>) -> bool {
    exists|value: JsonView| #[trigger] holds(j, key, value)
}

/// An object has each of its members.
pub proof fn lemma_holds(fields: Seq<(Seq<char>, JsonView)>, k: int)
    requires
        0 <= k < fields.len(),
    ensures
        holds(JsonView::Object(fields), fields[k].0, fields[k].1),
{
}

/// What is found under a key is a member of the object; nothing is found where
/// no member has the key.
pub proof fn lemma_member_is_held(j: JsonView, key: Seq<char>)
    ensures
        json::member(j, key) matches Some(value) ==> holds(j, key, value),
        json::member(j, key) is None ==> !has_key(j, key),
{
    if let JsonView::Object(fields) = j {
        lemma_found(fields, key);
        if json::member(j, key) is None && has_key(j, key) {
            let value = choose|value: JsonView| #[trigger] holds(j, key, value);
            let k = choose|k: int| 0 <= k < fields.len() && fields[k] == (key, value);
            assert(fields[k].0 == key);
        }
    } else {
        assert(json::member(j, key) is None);
        if has_key(j, key) {
            let value = choose|value: JsonView| #[trigger] holds(j, key, value);
            assert(holds(j, key, value));
        }
    }
}

proof fn lemma_found(fields: Seq<(Seq<char>, JsonView)>, key: Seq<char>)
    ensures
        json::member_from(fields, key) matches Some(value) ==> fields.contains((key, value)),
        json::member_from(fields, key) is None ==> forall|k: int|
            0 <= k < fields.len() ==> (#[trigger] fields[k]).0 != key,
    decreases fields.len(),
{
    if fields.len() > 0 && fields[0].0 != key {
        let rest = fields.skip(1);
        lemma_found(rest, key);
        if let Some(value) = json::member_from(rest, key) {
            let k = choose|k: int| 0 <= k < rest.len() && rest[k] == (key, value);
            assert(fields[k + 1] == (key, value));
        } else {
            assert forall|k: int| 0 <= k < fields.len() implies (#[trigger] fields[k]).0 != key by {
                if k > 0 {
                    assert(rest[k - 1] == fields[k]);
                }
            }
        }
    } else if fields.len() > 0 {
        assert(fields[0] == (key, fields[0].1));
    }
}

} // verus!
