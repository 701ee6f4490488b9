//! Network bookkeeping: collects the Wi-Fi credential entries from the
//! configuration registry. Connecting is an outward, fire-and-forget
//! concern of the caller; nothing here touches the network.

use crate::configuration::{bundle_bases, ConfigurationBase, ConfigurationRegistry};
use vstd::prelude::*;

verus! {

/// The name/password pairs of the well-formed Wi-Fi entries among the
/// given bases, in order; an entry without both text properties is skipped.
pub open spec fn wifi_credentials(bases: Seq<ConfigurationBase>) -> Seq<(Seq<char>, Seq<char>)>
    decreases bases.len(),
{
    if bases.len() == 0 {
        Seq::empty()
    } else {
        let rest = wifi_credentials(bases.drop_last());
        let b = bases.last();
        if b.props().contains_key("name"@) && b.props()["name"@] is Text && b.props().contains_key(
            "password"@,
        ) && b.props()["password"@] is Text {
            rest.push((b.props()["name"@]->Text_0@, b.props()["password"@]->Text_0@))
        } else {
            rest
        }
    }
}

/// Holds the known Wi-Fi connections and whether a reconnect is due.
pub struct NetworkManager {
    connections: Vec<(String, String)>,
    reconnect: bool,
}

impl NetworkManager {
    /// The collected name/password pairs.
    pub closed spec fn connection_views(self) -> Seq<(Seq<char>, Seq<char>)> {
        self.connections@.map_values(|c: (String, String)| (c.0@, c.1@))
    }

    pub closed spec fn reconnect_requested(self) -> bool {
        self.reconnect
    }

    /// Creates a manager with no connections and a reconnect due.
    pub fn new() -> (r: NetworkManager)
        ensures
            r.connection_views() == Seq::<(Seq<char>, Seq<char>)>::empty(),
            r.reconnect_requested(),
    {
        let r = NetworkManager { connections: Vec::new(), reconnect: true };
        proof {
            assert(r.connection_views() =~= Seq::<(Seq<char>, Seq<char>)>::empty());
        }
        r
    }

    /// Collects the credentials of the `wifi` scope, once per requested
    /// reconnect; the caller then makes the connection attempts.
    #[verifier::loop_isolation(false)]
    pub fn init(&mut self, configuration: &ConfigurationRegistry)
        requires
            configuration.wf(),
        ensures
            !old(self).reconnect_requested() ==> *final(self) == *old(self),
            old(self).reconnect_requested() ==> {
                &&& final(self).connection_views() == wifi_credentials(
                    bundle_bases(configuration.base_entries(), "wifi"@),
                )
                &&& !final(self).reconnect_requested()
            },
    {
        if !self.reconnect {
            return ;
        }
        self.connections.clear();
        let bases = configuration.get_bases_of_bundle("wifi");
        let ghost bb = bundle_bases(configuration.base_entries(), "wifi"@);
        let n = bases.len();
        let mut i: usize = 0;
        proof {
            assert(self.connection_views() =~= wifi_credentials(bb.take(0)));
        }
        while i < n
            invariant
                i <= n,
                n == bb.len(),
                bases@.map_values(|b: &ConfigurationBase| *b) == bb,
                forall|j: int| 0 <= j < bases@.len() ==> (#[trigger] bases@[j]).wf(),
                self.connection_views() == wifi_credentials(bb.take(i as int)),
            decreases n - i,
        {
            proof {
                assert(bb.take(i as int + 1).drop_last() =~= bb.take(i as int));
                assert(bb.take(i as int + 1).last() == bb[i as int]);
                assert(bb[i as int] == *bases@[i as int]);
            }
            let base = bases[i];
            let name = base.get_str("name");
            let password = base.get_str("password");
            match (name, password) {
                (Some(name), Some(password)) => {
                    let ghost before = self.connection_views();
                    let ghost nv = name@;
                    let ghost pv = password@;
                    self.connections.push((name, password));
                    proof {
                        assert(self.connection_views() =~= before.push((nv, pv)));
                    }
                },
                _ => {},
            }
            i = i + 1;
        }
        proof {
            assert(bb.take(n as int) =~= bb);
        }
        self.reconnect = false;
    }

    /// The collected connections, for the caller that attempts them.
    pub fn connections(&self) -> (r: &Vec<(String, String)>)
        ensures
            r@.map_values(|c: (String, String)| (c.0@, c.1@)) == self.connection_views(),
    {
        &self.connections
    }

    /// Whether the next initialization will collect and reconnect.
    pub fn get_reconnect_requested(&self) -> (r: bool)
        ensures
            r == self.reconnect_requested(),
    {
        self.reconnect
    }

    /// Marks whether the next initialization collects and reconnects.
    pub fn set_reconnect_requested(&mut self, reconnect: bool)
        ensures
            final(self).reconnect_requested() == reconnect,
            final(self).connection_views() == old(self).connection_views(),
    {
        self.reconnect = reconnect;
    }
}

} // verus!
