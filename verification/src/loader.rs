//! Taking in the descriptions of a device's services, one after the other.
//!
//! The library retrieves nothing itself. A [`ServiceLoader`] holds the
//! services of a device and knows how many of them have their actions; each
//! [`LoadStep`] says what the caller has to do next. The descriptions are
//! asked for in the order of the services, one at a time, and the first
//! failure ends the run: no partly loaded list is handed out.

use crate::error::UpnpError;
use crate::parser::description::{
    has_absolute_urls, parse_service_description, spec_service_description,
};
use crate::types::{ActionView, Service, ServiceView};
use vstd::prelude::*;

verus! {

/// The services of a device, some of them still without their actions.
pub struct ServiceLoader {
    services: Vec<Service>,
    loaded: usize,
}

/// What the caller of a [`ServiceLoader`] has to do next.
pub enum LoadStep {
    /// Retrieve the document at `url` and hand the outcome to
    /// [`ServiceLoader::resume`].
    Fetch { loader: ServiceLoader, url: String },
    /// Every service has its actions.
    Done(Vec<Service>),
    /// A description could not be retrieved or read.
    Failed(UpnpError),
}

/// `services` with the actions of the one at `index` replaced by `actions`.
pub open spec fn with_actions(services: Seq<ServiceView>, index: int, actions: Seq<ActionView>) -> Seq<
    ServiceView,
> {
    services.update(index, ServiceView { actions, ..services[index] })
}

/// `step` is the step of a run that holds `services`, of which the first
/// `loaded` have their actions: it asks for the description of the next
/// service, by that service's `scpd_url`, or hands the services out where
/// none is left.
pub open spec fn is_step(step: LoadStep, services: Seq<ServiceView>, loaded: nat) -> bool {
    if loaded < services.len() {
        &&& step matches LoadStep::Fetch { loader, url }
        &&& loader.services() == services
        &&& loader.loaded() == loaded
        &&& url@ == services[loaded as int].scpd_url
    } else {
        step matches LoadStep::Done(done) && done.deep_view() == services
    }
}

/// Taking in actions changes nothing else: the services stay as many, in
/// their order, and each keeps its type, its id and its URLs.
pub proof fn lemma_loading_keeps_services(
    services: Seq<ServiceView>,
    index: int,
    actions: Seq<ActionView>,
)
    requires
        0 <= index < services.len(),
    ensures
        with_actions(services, index, actions).len() == services.len(),
        forall|i: int|
            0 <= i < services.len() ==> {
                let before = services[i];
                let after = #[trigger] with_actions(services, index, actions)[i];
                &&& after.service_type == before.service_type
                &&& after.service_id == before.service_id
                &&& after.control_url == before.control_url
                &&& after.event_sub_url == before.event_sub_url
                &&& after.scpd_url == before.scpd_url
                &&& has_absolute_urls(before) ==> has_absolute_urls(after)
                &&& after.actions == if i == index {
                    actions
                } else {
                    before.actions
                }
            },
{
}

impl ServiceLoader {
    #[verifier::type_invariant]
    spec fn has_pending(self) -> bool {
        self.loaded < self.services.len()
    }

    /// The services of this run.
    pub closed spec fn services(self) -> Seq<ServiceView> {
        self.services.deep_view()
    }

    /// The number of services that have their actions.
    pub closed spec fn loaded(self) -> nat {
        self.loaded as nat
    }

    fn step(services: Vec<Service>, loaded: usize) -> (step: LoadStep)
        requires
            loaded <= services.len(),
        ensures
            is_step(step, services.deep_view(), loaded as nat),
    {
        if loaded < services.len() {
            let url = services[loaded].scpd_url.clone();
            LoadStep::Fetch { loader: ServiceLoader { services, loaded }, url }
        } else {
            LoadStep::Done(services)
        }
    }

    /// Starts a run on `services`, none of which has its actions yet.
    pub fn begin(services: Vec<Service>) -> (step: LoadStep)
        ensures
            is_step(step, services.deep_view(), 0),
    {
        ServiceLoader::step(services, 0)
    }

    /// The URL of the description that this loader waits for.
    pub fn pending_url(&self) -> (url: &str)
        ensures
            self.loaded() < self.services().len(),
            url@ == self.services()[self.loaded() as int].scpd_url,
    {
        proof {
            use_type_invariant(self);
        }
        self.services[self.loaded].scpd_url.as_str()
    }

    /// Goes on with the outcome of the retrieval that the last step asked
    /// for: the text of the description, or `None` where it could not be
    /// retrieved. `Transport` for `None`; the description's own error where
    /// it cannot be read; else the next step, with the actions of the
    /// description on the service it belongs to.
    pub fn resume(self, document: Option<&str>) -> (step: LoadStep)
        ensures
            match document {
                None => step matches LoadStep::Failed(error) && error == UpnpError::Transport,
                Some(text) => match spec_service_description(text@) {
                    Err(expected) => step matches LoadStep::Failed(error) && error == expected,
                    Ok(actions) => is_step(
                        step,
                        with_actions(self.services(), self.loaded() as int, actions),
                        self.loaded() + 1,
                    ),
                },
            },
    {
        proof {
            use_type_invariant(&self);
        }
        let text = match document {
            Some(text) => text,
            None => {
                return LoadStep::Failed(UpnpError::Transport);
            },
        };
        let actions = match parse_service_description(text) {
            Ok(actions) => actions,
            Err(error) => {
                return LoadStep::Failed(error);
            },
        };
        let index = self.loaded;
        let mut services = self.services;
        let ghost before = services.deep_view();
        assert(before[index as int] == services[index as int].deep_view());
        services[index].actions = actions;
        assert(services.deep_view() =~= with_actions(before, index as int, actions.deep_view()));
        ServiceLoader::step(services, index + 1)
    }
}

} // verus!
