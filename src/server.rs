//! The settings of the layer that wraps every HTTP service of a listener.

use std::marker::PhantomData;
use vstd::prelude::*;

verus! {

/// Settings of the middleware stack put around a listener's service: the
/// listener's name, if any, is attached to the traces of its requests.
#[derive(Debug, Default)]
pub struct ServerLayer<ReqBody> {
    listener_name: Option<String>,
    _t: PhantomData<ReqBody>,
}

impl<B> ServerLayer<B> {
    /// The name of the listener whose requests go through this layer.
    pub closed spec fn spec_listener_name(self) -> Option<String> {
        self.listener_name
    }

    #[must_use]
    pub fn new(listener_name: Option<String>) -> (r: Self)
        ensures
            r.spec_listener_name() == listener_name,
    {
        Self { listener_name, _t: PhantomData }
    }

    pub fn listener_name(&self) -> (r: &Option<String>)
        ensures
            *r == self.spec_listener_name(),
    {
        &self.listener_name
    }
}

} // verus!
