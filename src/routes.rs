use vstd::prelude::*;

verus! {

/// The greeting served at the root path.
pub open spec fn greeting() -> Seq<char> {
    "You have reached a Violetear Web API."@
}

/// The body of the root page.
pub fn index() -> (r: String)
    ensures
        r@ == greeting(),
{
    "You have reached a Violetear Web API.".to_owned()
}

} // verus!
