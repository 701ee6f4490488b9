//! Dashboard bookkeeping: which widgets stand on the dashboard, each a
//! bundle reference with its position and size, and the pending-reload
//! flag. Rendering the markup is the caller's concern.

use crate::configuration::{bundle_bases, ConfigurationBase, ConfigurationRegistry};
use crate::http::HttpError;
use vstd::prelude::*;
use vstd::string::*;

verus! {

/// One widget placed on the dashboard: a bundle reference with its
/// position and size.
#[derive(Debug)]
pub struct WidgetView {
    pub uuid: String,
    pub position_x: i64,
    pub position_y: i64,
    pub width: i64,
    pub height: i64,
}

pub open spec fn widget_view_shape(w: WidgetView) -> (Seq<char>, i64, i64, i64, i64) {
    (w.uuid@, w.position_x, w.position_y, w.width, w.height)
}

/// What a widget base describes, if it holds a text `uuid` and integer
/// geometry.
pub open spec fn spec_widget_of(b: ConfigurationBase) -> Option<(Seq<char>, i64, i64, i64, i64)> {
    let p = b.props();
    if p.contains_key("uuid"@) && p["uuid"@] is Text && p.contains_key("position_x"@)
        && p["position_x"@] is Integer && p.contains_key("position_y"@) && p["position_y"@]
        is Integer && p.contains_key("width"@) && p["width"@] is Integer && p.contains_key(
        "height"@,
    ) && p["height"@] is Integer {
        Some(
            (
                p["uuid"@]->Text_0@,
                p["position_x"@]->Integer_0,
                p["position_y"@]->Integer_0,
                p["width"@]->Integer_0,
                p["height"@]->Integer_0,
            ),
        )
    } else {
        None
    }
}

/// The widgets described by the given bases, in order, skipping any base
/// that does not describe one.
pub open spec fn widgets_of(bases: Seq<ConfigurationBase>) -> Seq<(Seq<char>, i64, i64, i64, i64)>
    decreases bases.len(),
{
    if bases.len() == 0 {
        Seq::empty()
    } else {
        let rest = widgets_of(bases.drop_last());
        match spec_widget_of(bases.last()) {
            Some(w) => rest.push(w),
            None => rest,
        }
    }
}

/// The widgets on the dashboard and the pending-reload flag.
pub struct Dashboard {
    widgets: Vec<WidgetView>,
    reload_requested: bool,
}

impl Dashboard {
    pub closed spec fn widget_views(self) -> Seq<(Seq<char>, i64, i64, i64, i64)> {
        self.widgets@.map_values(|w: WidgetView| widget_view_shape(w))
    }

    pub closed spec fn spec_reload_requested(self) -> bool {
        self.reload_requested
    }

    /// Creates an empty dashboard with a reload pending.
    pub fn new() -> (r: Dashboard)
        ensures
            r.widget_views() == Seq::<(Seq<char>, i64, i64, i64, i64)>::empty(),
            r.spec_reload_requested(),
    {
        let r = Dashboard { widgets: Vec::new(), reload_requested: true };
        proof {
            assert(r.widget_views() =~= Seq::<(Seq<char>, i64, i64, i64, i64)>::empty());
        }
        r
    }

    /// Builds one widget from its base; the base must hold a text `uuid`
    /// and the four integer geometry properties.
    pub fn load_widget(base: &ConfigurationBase) -> (r: Result<WidgetView, HttpError>)
        requires
            base.wf(),
        ensures
            match r {
                Ok(w) => spec_widget_of(*base) == Some(widget_view_shape(w)),
                Err(e) => spec_widget_of(*base) is None && (e matches HttpError::ServerError(m)
                    && m@ == "Invalid widget configuration"@),
            },
    {
        let uuid = match base.get_str("uuid") {
            Some(u) => u,
            None => {
                return Err(
                    HttpError::ServerError(String::from_str("Invalid widget configuration")),
                );
            },
        };
        let position_x = match base.get_i64("position_x") {
            Some(v) => v,
            None => {
                return Err(
                    HttpError::ServerError(String::from_str("Invalid widget configuration")),
                );
            },
        };
        let position_y = match base.get_i64("position_y") {
            Some(v) => v,
            None => {
                return Err(
                    HttpError::ServerError(String::from_str("Invalid widget configuration")),
                );
            },
        };
        let width = match base.get_i64("width") {
            Some(v) => v,
            None => {
                return Err(
                    HttpError::ServerError(String::from_str("Invalid widget configuration")),
                );
            },
        };
        let height = match base.get_i64("height") {
            Some(v) => v,
            None => {
                return Err(
                    HttpError::ServerError(String::from_str("Invalid widget configuration")),
                );
            },
        };
        Ok(WidgetView { uuid, position_x, position_y, width, height })
    }

    /// Rebuilds the widget list from the `widgets` scope of the registry,
    /// skipping malformed entries, and marks a reload pending.
    #[verifier::loop_isolation(false)]
    pub fn init(&mut self, config: &ConfigurationRegistry) -> (r: Result<(), HttpError>)
        requires
            config.wf(),
        ensures
            r is Ok,
            final(self).widget_views() == widgets_of(
                bundle_bases(config.base_entries(), "widgets"@),
            ),
            final(self).spec_reload_requested(),
    {
        self.widgets.clear();
        let bases = config.get_bases_of_bundle("widgets");
        let ghost bb = bundle_bases(config.base_entries(), "widgets"@);
        let n = bases.len();
        let mut i: usize = 0;
        proof {
            assert(self.widget_views() =~= widgets_of(bb.take(0)));
        }
        while i < n
            invariant
                i <= n,
                n == bb.len(),
                bases@.map_values(|b: &ConfigurationBase| *b) == bb,
                forall|j: int| 0 <= j < bases@.len() ==> (#[trigger] bases@[j]).wf(),
                self.widget_views() == widgets_of(bb.take(i as int)),
            decreases n - i,
        {
            proof {
                assert(bb.take(i as int + 1).drop_last() =~= bb.take(i as int));
                assert(bb.take(i as int + 1).last() == bb[i as int]);
                assert(bb[i as int] == *bases@[i as int]);
            }
            let base = bases[i];
            match Dashboard::load_widget(base) {
                Ok(widget) => {
                    let ghost before = self.widget_views();
                    let ghost wv = widget_view_shape(widget);
                    self.widgets.push(widget);
                    proof {
                        assert(self.widget_views() =~= before.push(wv));
                    }
                },
                Err(_) => {},
            }
            i = i + 1;
        }
        proof {
            assert(bb.take(n as int) =~= bb);
        }
        self.reload_requested = true;
        Ok(())
    }

    /// The widgets, for the caller that renders them.
    pub fn widgets(&self) -> (r: &Vec<WidgetView>)
        ensures
            r@.map_values(|w: WidgetView| widget_view_shape(w)) == self.widget_views(),
    {
        &self.widgets
    }

    pub fn set_reload_requested(&mut self, reload_requested: bool)
        ensures
            final(self).spec_reload_requested() == reload_requested,
            final(self).widget_views() == old(self).widget_views(),
    {
        self.reload_requested = reload_requested;
    }

    pub fn get_reload_requested(&self) -> (r: bool)
        ensures
            r == self.spec_reload_requested(),
    {
        self.reload_requested
    }
}

} // verus!
