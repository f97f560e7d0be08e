use vstd::prelude::*;

verus! {

/// An asynchronous request-to-response capability.
///
/// `call` hands back a future that resolves to the response or an error. The
/// router itself never implements this; it is the shape that suspending
/// handlers and host adapters are written against.
pub trait Service<Request> {
    type Response;

    type Error;

    type Future: std::future::Future<Output = Result<Self::Response, Self::Error>> + Send + 'static;

    fn call(&mut self, req: Request) -> Self::Future;
}

} // verus!
