//! Values that every protocol carries.
use vstd::prelude::*;

verus! {

/// Opaque bytes: an operation for the replicated application, or its result.
#[derive(Debug, PartialEq, Eq, Hash)]
pub struct Payload(pub Vec<u8>);

impl View for Payload {
    type V = Seq<u8>;

    open spec fn view(&self) -> Seq<u8> {
        self.0@
    }
}

impl Clone for Payload {
    fn clone(&self) -> (r: Self)
        ensures
            r@ == self@,
    {
        Payload(self.0.clone())
    }
}

impl Payload {
    /// Whether two payloads hold the same bytes.
    pub fn same(&self, other: &Payload) -> (r: bool)
        ensures
            r == (self@ == other@),
    {
        if self.0.len() != other.0.len() {
            return false;
        }
        for i in 0..self.0.len()
            invariant
                self.0.len() == other.0.len(),
                forall|j: int| 0 <= j < i ==> self@[j] == other@[j],
        {
            if self.0[i] != other.0[i] {
                return false;
            }
        }
        assert(self@ =~= other@);
        true
    }
}

/// Names a timer that the caller has armed.
#[derive(Debug, Clone, Copy, PartialEq, Eq, Hash, Structural)]
pub struct TimerId(pub u32);

/// What a client asks the replicated application to do.
#[derive(Debug, PartialEq, Eq, Hash)]
pub struct Request<A> {
    pub client_id: u32,
    pub client_addr: A,
    pub seq: u32,
    pub op: Payload,
}

/// A request as a plain value.
pub ghost struct RequestView<A> {
    pub client_id: u32,
    pub client_addr: A,
    pub seq: u32,
    pub op: Seq<u8>,
}

impl<A> View for Request<A> {
    type V = RequestView<A>;

    open spec fn view(&self) -> RequestView<A> {
        RequestView {
            client_id: self.client_id,
            client_addr: self.client_addr,
            seq: self.seq,
            op: self.op@,
        }
    }
}

impl<A: Copy> Clone for Request<A> {
    fn clone(&self) -> (r: Self)
        ensures
            r@ == self@,
    {
        Request {
            client_id: self.client_id,
            client_addr: self.client_addr,
            seq: self.seq,
            op: self.op.clone(),
        }
    }
}

/// The views of a sequence of requests.
pub open spec fn request_views<A>(requests: Seq<Request<A>>) -> Seq<RequestView<A>> {
    requests.map_values(|r: Request<A>| r@)
}

/// Copies a batch of requests.
pub fn clone_requests<A: Copy>(requests: &Vec<Request<A>>) -> (r: Vec<Request<A>>)
    ensures
        request_views(r@) == request_views(requests@),
{
    let mut copy: Vec<Request<A>> = Vec::new();
    for i in 0..requests.len()
        invariant
            copy@.len() == i,
            forall|j: int| 0 <= j < i ==> copy@[j]@ == requests@[j]@,
    {
        copy.push(requests[i].clone());
    }
    assert(request_views(copy@) =~= request_views(requests@));
    copy
}

} // verus!
