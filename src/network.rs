use vstd::prelude::*;

verus! {

/// The named environments whose nodes can be asked for a contract's code.
#[derive(Debug, Clone, Copy, PartialEq, Eq, Structural)]
pub enum NetwrokId {
    Mainnet,
    Testnet,
}

/// The endpoint of each environment.
pub open spec fn rpc_url_of(network: NetwrokId) -> Seq<char> {
    match network {
        NetwrokId::Mainnet => "https://rpc.mainnet.near.org"@,
        NetwrokId::Testnet => "https://rpc.testnet.near.org"@,
    }
}

/// The JSON-RPC endpoint of a network's node.
pub fn rpc_url(network: NetwrokId) -> (r: &'static str)
    ensures
        r@ == rpc_url_of(network),
{
    match network {
        NetwrokId::Mainnet => "https://rpc.mainnet.near.org",
        NetwrokId::Testnet => "https://rpc.testnet.near.org",
    }
}

/// The network that a command-line token selects, if any.
pub fn network_from_name(name: &str) -> (r: Option<NetwrokId>)
    ensures
        name@ == "mainnet"@ ==> r == Some(NetwrokId::Mainnet),
        name@ == "testnet"@ ==> r == Some(NetwrokId::Testnet),
        name@ != "mainnet"@ && name@ != "testnet"@ ==> r.is_none(),
{
    proof {
        reveal_strlit("mainnet");
        reveal_strlit("testnet");
        assert("mainnet"@[0] != "testnet"@[0]);
    }
    if str_equal(name, "mainnet") {
        Some(NetwrokId::Mainnet)
    } else if str_equal(name, "testnet") {
        Some(NetwrokId::Testnet)
    } else {
        None
    }
}

/// Character-by-character comparison of two strings.
fn str_equal(a: &str, b: &str) -> (r: bool)
    ensures
        r == (a@ == b@),
{
    let n = a.unicode_len();
    if n != b.unicode_len() {
        return false;
    }
    let mut i: usize = 0;
    while i < n
        invariant
            n == a@.len(),
            n == b@.len(),
            i <= n,
            a@.subrange(0, i as int) == b@.subrange(0, i as int),
        decreases n - i,
    {
        if a.get_char(i) != b.get_char(i) {
            return false;
        }
        assert(a@.subrange(0, i + 1) == a@.subrange(0, i as int).push(a@[i as int]));
        assert(b@.subrange(0, i + 1) == b@.subrange(0, i as int).push(b@[i as int]));
        i = i + 1;
    }
    assert(a@ == a@.subrange(0, n as int));
    assert(b@ == b@.subrange(0, n as int));
    true
}

} // verus!
