//! The shared system state: the configuration registry together with the
//! bundle table, dashboard and network bookkeeping. One process-wide
//! instance lives behind one exclusive lock at the caller; every handler
//! operation on this state runs under that lock, so no two of them ever
//! execute concurrently.

use crate::app_manager::{load_views, manager_shape, spec_init, AppManager, BundleLoad};
use crate::configuration::{bundle_bases, ConfigurationRegistry};
use crate::value::Value;
use crate::dashboard::{widgets_of, Dashboard};
use crate::network::{wifi_credentials, NetworkManager};
use vstd::prelude::*;

verus! {

/// The single shared aggregate of registry, bundle table, dashboard and
/// network state.
pub struct SystemState {
    pub configuration: ConfigurationRegistry,
    pub dashboard: Dashboard,
    pub app_manager: AppManager,
    pub network_manager: NetworkManager,
}

impl SystemState {
    pub open spec fn wf(self) -> bool {
        &&& self.configuration.wf()
        &&& self.app_manager.wf()
    }

    /// Composes an empty system state, ready for its first initialization.
    pub fn new() -> (r: SystemState)
        ensures
            r.wf(),
            r.configuration.state() == Map::<Seq<char>, Map<Seq<char>, Value>>::empty(),
            manager_shape(r.app_manager.bundle_map()) == Map::<Seq<char>, Seq<char>>::empty(),
            r.dashboard.spec_reload_requested(),
            r.network_manager.reconnect_requested(),
    {
        let r = SystemState {
            configuration: ConfigurationRegistry::new(),
            dashboard: Dashboard::new(),
            app_manager: AppManager::new(),
            network_manager: NetworkManager::new(),
        };
        proof {
            assert(manager_shape(r.app_manager.bundle_map()) =~= Map::<
                Seq<char>,
                Seq<char>,
            >::empty());
        }
        r
    }

    /// Reinitializes the whole system from a fresh scan of the bundle
    /// directory: the registry is cleared and repopulated, never merged;
    /// the dashboard and network bookkeeping are rebuilt from it. Running
    /// this twice over identical scans leaves identical states.
    pub fn init(&mut self, loads: Vec<BundleLoad>)
        requires
            old(self).wf(),
        ensures
            final(self).wf(),
            ({
                let (mgr, reg) = spec_init(
                    manager_shape(old(self).app_manager.bundle_map()),
                    Map::<Seq<char>, Map<Seq<char>, Value>>::empty(),
                    load_views(loads@),
                );
                &&& manager_shape(final(self).app_manager.bundle_map()) == mgr
                &&& final(self).configuration.state() == reg
            }),
            final(self).dashboard.widget_views() == widgets_of(
                bundle_bases(final(self).configuration.base_entries(), "widgets"@),
            ),
            final(self).dashboard.spec_reload_requested(),
            !old(self).network_manager.reconnect_requested() ==> final(self).network_manager == old(
                self,
            ).network_manager,
            old(self).network_manager.reconnect_requested() ==> {
                &&& final(self).network_manager.connection_views() == wifi_credentials(
                    bundle_bases(final(self).configuration.base_entries(), "wifi"@),
                )
                &&& !final(self).network_manager.reconnect_requested()
            },
    {
        self.configuration.init();
        self.app_manager.init(&mut self.configuration, loads);
        let _ = self.dashboard.init(&self.configuration);
        self.network_manager.init(&self.configuration);
    }
}

} // verus!
