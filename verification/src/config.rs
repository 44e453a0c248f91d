use vstd::prelude::*;

verus! {

/// The listen address used when none is configured.
pub open spec fn default_listen_addr() -> Seq<char> {
    seq!['0', '.', '0', '.', '0', '.', '0', ':', '3', '0', '0', '2']
}

/// The text of the address to listen on: the configured value when there is
/// one, otherwise "0.0.0.0:3002".
pub fn listen_addr_text(configured: Option<String>) -> (r: String)
    ensures
        r@ == match configured {
            Some(c) => c@,
            None => default_listen_addr(),
        },
        configured is None ==> r@ == seq!['0', '.', '0', '.', '0', '.', '0', ':', '3', '0', '0', '2'],
{
    match configured {
        Some(c) => c,
        None => {
            proof { reveal_strlit("0.0.0.0:3002"); }
            let d = "0.0.0.0:3002".to_owned();
            assert(d@ =~= default_listen_addr());
            d
        },
    }
}

} // verus!
