use vstd::prelude::*;

verus! {

/// The text of the reply: the last choice the completion service returned, or
/// the empty string when it returned none.
pub open spec fn reply_text_of(choices: Seq<Seq<char>>) -> Seq<char> {
    if choices.len() == 0 {
        Seq::empty()
    } else {
        choices.last()
    }
}

/// Picks the reply text out of the choices of a completion response.
pub fn last_choice_text(choices: &Vec<String>) -> (r: String)
    ensures
        r@ == reply_text_of(choices@.map_values(|c: String| c@)),
{
    if choices.len() == 0 {
        String::new()
    } else {
        choices[choices.len() - 1].clone()
    }
}

} // verus!
