use vstd::prelude::*;
use vstd::string::*;

verus! {

/// Whether `ruma_identifiers_validation::user_id::validate` accepts `text` as
/// a user identifier (`@localpart:server`). The rules for the server part are
/// long (host names, address literals, ports), so the verdict is only named.
pub uninterp spec fn user_id_accepted(text: Seq<char>) -> bool;

/// The form of a room identifier: at most 255 bytes, a leading `!`, no NUL byte.
pub open spec fn room_id_form(bytes: Seq<u8>) -> bool {
    &&& 0 < bytes.len() <= 255
    &&& bytes[0] == 0x21u8
    &&& !bytes.contains(0u8)
}

/// Whether `text` is a room identifier: its UTF-8 bytes have the form of one.
pub open spec fn room_id_accepted(text: Seq<char>) -> bool {
    room_id_form(vstd::utf8::encode_utf8(text))
}

/// Calls `ruma_identifiers_validation::user_id::validate`, which is a function
/// of the text alone and returns on every input; the result says whether it
/// answered `Ok`.
#[verifier::external_body]
fn check_user_id(text: &str) -> (ok: bool)
    ensures
        ok == user_id_accepted(text@),
{
    ruma_identifiers_validation::user_id::validate(text).is_ok()
}

/// Calls `ruma_identifiers_validation::room_id::validate`, which accepts
/// exactly the texts of at most 255 bytes that start with `!` and hold no NUL
/// byte.
#[verifier::external_body]
fn check_room_id(text: &str) -> (ok: bool)
    ensures
        ok == room_id_accepted(text@),
{
    ruma_identifiers_validation::room_id::validate(text).is_ok()
}

/// The texts of a list of strings.
pub open spec fn texts(list: Seq<String>) -> Seq<Seq<char>> {
    list.map_values(|s: String| s@)
}

/// The well-formed user identifiers of `users`, in their order.
pub open spec fn accepted_names(users: Seq<String>) -> Seq<Seq<char>> {
    texts(users).filter(|t: Seq<char>| user_id_accepted(t))
}

/// Whether `text` is a well-formed user identifier.
pub fn is_user_id(text: &str) -> (ok: bool)
    ensures
        ok == user_id_accepted(text@),
{
    check_user_id(text)
}

/// Whether `text` is a well-formed room identifier.
pub fn is_room_id(text: &str) -> (ok: bool)
    ensures
        ok == room_id_accepted(text@),
{
    check_room_id(text)
}

/// Keeps the well-formed user identifiers of `users`, in their order, and
/// drops the rest.
pub fn valid_user_ids(users: &Vec<String>) -> (kept: Vec<String>)
    ensures
        texts(kept@) == accepted_names(users@),
{
    let mut kept: Vec<String> = Vec::new();
    let mut i: usize = 0;
    proof {
        reveal(Seq::filter);
        assert(texts(users@).take(0) =~= Seq::<Seq<char>>::empty());
        assert(texts(kept@) =~= Seq::<Seq<char>>::empty());
    }
    while i < users.len()
        invariant
            i <= users.len(),
            texts(kept@) == texts(users@).take(i as int).filter(
                |t: Seq<char>| user_id_accepted(t),
            ),
        decreases users.len() - i,
    {
        let ghost before = texts(kept@);
        if check_user_id(users[i].as_str()) {
            kept.push(users[i].clone());
            assert(texts(kept@) =~= before.push(users@[i as int]@));
        }
        proof {
            reveal(Seq::filter);
            let next = texts(users@).take(i + 1);
            assert(next.drop_last() =~= texts(users@).take(i as int));
            assert(next.last() == users@[i as int]@);
        }
        i += 1;
    }
    assert(texts(users@).take(users.len() as int) =~= texts(users@));
    kept
}

} // verus!
