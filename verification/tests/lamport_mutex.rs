use augustus::cops::version::OrdinaryVersion;
use augustus::lamport_mutex::{
    Causal, CausalAction, Clock, Clocked, Error, Lamport, Message, Processor, ProcessorAction,
    Release, Replicated, Request, Scalar, To, Update, UpdateOk,
};
use std::collections::{BTreeMap, VecDeque};

/// Three processors, each behind its causal net, on a wire that delivers in
/// order.
struct Peers {
    processors: Vec<Processor>,
    nets: Vec<Causal<Scalar>>,
    wire: VecDeque<(usize, Clocked<Scalar>)>,
    granted: Vec<u8>,
}

impl Peers {
    fn new(clocks: &[u64]) -> Self {
        let mut peers = Peers {
            processors: (0..clocks.len()).map(|id| Processor::new(id as u8, clocks.len())).collect(),
            nets: clocks.iter().map(|clock| Causal::new(Scalar(*clock))).collect(),
            wire: VecDeque::new(),
            granted: Vec::new(),
        };
        for at in 0..clocks.len() {
            let actions = peers.nets[at].on_init().unwrap();
            peers.net_actions(at, actions);
        }
        peers
    }

    fn net_actions(&mut self, at: usize, actions: Vec<CausalAction<Scalar>>) {
        for action in actions {
            match action {
                CausalAction::Update(update) => {
                    let update_ok = Lamport.send(update).unwrap();
                    let actions = self.nets[at].on_update_ok(update_ok).unwrap();
                    self.net_actions(at, actions);
                }
                CausalAction::Send(To::All, clocked) => {
                    for to in 0..self.nets.len() {
                        self.wire
                            .push_back((to, Clocked { clock: clocked.clock, inner: clocked.inner }));
                    }
                }
                CausalAction::Send(To::Processor(to), clocked) => {
                    self.wire.push_back((to as usize, clocked))
                }
                CausalAction::Deliver(clocked) => {
                    let actions = self.processors[at].on_recv(&clocked);
                    self.processor_actions(at, actions);
                }
            }
        }
    }

    fn processor_actions(&mut self, at: usize, actions: Vec<ProcessorAction>) {
        for action in actions {
            match action {
                ProcessorAction::Broadcast(message) => {
                    let actions = self.nets[at].on_send(To::All, message);
                    self.net_actions(at, actions);
                }
                ProcessorAction::Send(to, message) => {
                    let actions = self.nets[at].on_send(To::Processor(to), message);
                    self.net_actions(at, actions);
                }
                ProcessorAction::RequestOk => self.granted.push(at as u8),
            }
        }
    }

    fn request(&mut self, at: usize) {
        let actions = self.processors[at].on_request(Request);
        self.processor_actions(at, actions);
    }

    fn release(&mut self, at: usize) {
        let actions = self.processors[at].on_release(Release);
        self.processor_actions(at, actions);
    }

    fn run(&mut self) {
        while let Some((to, clocked)) = self.wire.pop_front() {
            let actions = self.nets[to].on_recv(clocked);
            self.net_actions(to, actions);
        }
    }

    fn holders(&self) -> Vec<usize> {
        (0..self.processors.len()).filter(|at| self.processors[*at].is_granted()).collect()
    }
}

#[test]
fn mutex_is_granted_in_the_order_of_the_requests() {
    let mut peers = Peers::new(&[0, 5, 7]);
    peers.request(1);
    peers.request(2);
    peers.run();
    assert_eq!(peers.granted, vec![1]);
    assert_eq!(peers.holders(), vec![1]);
    peers.release(1);
    peers.run();
    assert_eq!(peers.granted, vec![1, 2]);
    assert_eq!(peers.holders(), vec![2]);
    peers.release(2);
    peers.run();
    assert_eq!(peers.granted, vec![1, 2]);
    assert_eq!(peers.holders(), Vec::<usize>::new());
}

#[test]
fn equal_clocks_are_ordered_by_processor() {
    let mut peers = Peers::new(&[3, 3, 3]);
    peers.request(2);
    peers.request(0);
    peers.run();
    assert_eq!(peers.granted, vec![0]);
    peers.release(0);
    peers.run();
    assert_eq!(peers.granted, vec![0, 2]);
}

#[test]
fn single_processor_is_granted_at_once() {
    let mut peers = Peers::new(&[0]);
    peers.request(0);
    peers.run();
    assert_eq!(peers.granted, vec![0]);
}

#[test]
fn processor_acknowledges_and_grants() {
    let mut processor = Processor::new(0, 2);
    assert_eq!(
        processor.on_request(Request),
        vec![ProcessorAction::Broadcast(Message::Request(0))]
    );
    // its own request comes back with its clock: the other has not been heard from
    let own = Clocked { clock: Scalar(4), inner: Message::Request(0) };
    assert_eq!(processor.on_recv(&own), vec![]);
    // an acknowledgement that is not after the request does not count
    let early = Clocked { clock: Scalar(4), inner: Message::Ack(1) };
    assert_eq!(processor.on_recv(&early), vec![]);
    let ack = Clocked { clock: Scalar(5), inner: Message::Ack(1) };
    assert_eq!(processor.on_recv(&ack), vec![ProcessorAction::RequestOk]);
    assert!(processor.is_granted());
    // a later request of the other is acknowledged and waits
    let other = Clocked { clock: Scalar(6), inner: Message::Request(1) };
    assert_eq!(processor.on_recv(&other), vec![ProcessorAction::Send(1, Message::Ack(0))]);
    assert_eq!(
        processor.on_release(Release),
        vec![ProcessorAction::Broadcast(Message::Release(0))]
    );
    let released = Clocked { clock: Scalar(7), inner: Message::Release(0) };
    assert_eq!(processor.on_recv(&released), vec![]);
    assert!(!processor.is_granted());
}

#[test]
fn earlier_request_of_another_goes_first() {
    let mut processor = Processor::new(1, 2);
    let own = Clocked { clock: Scalar(4), inner: Message::Request(1) };
    assert_eq!(processor.on_recv(&own), vec![]);
    let other = Clocked { clock: Scalar(4), inner: Message::Request(0) };
    assert_eq!(processor.on_recv(&other), vec![ProcessorAction::Send(0, Message::Ack(1))]);
    let ack = Clocked { clock: Scalar(9), inner: Message::Ack(0) };
    assert_eq!(processor.on_recv(&ack), vec![]);
    let release = Clocked { clock: Scalar(10), inner: Message::Release(0) };
    assert_eq!(processor.on_recv(&release), vec![ProcessorAction::RequestOk]);
}

#[test]
fn causal_net_gives_every_message_its_clock() {
    let mut net = Causal::new(Scalar(5));
    assert_eq!(
        net.on_init().unwrap(),
        vec![CausalAction::Update(Update { prev: Scalar(5), remote: Scalar(5) })]
    );
    assert_eq!(net.on_init(), Err(Error::DuplicatedInit));
    // work that arrives meanwhile waits
    assert_eq!(net.on_send(To::All, Message::Request(1)), vec![]);
    let remote = Clocked { clock: Scalar(9), inner: Message::Ack(2) };
    assert_eq!(net.on_recv(remote), vec![]);
    assert_eq!(
        net.on_update_ok(UpdateOk(Scalar(6))).unwrap(),
        vec![CausalAction::Update(Update { prev: Scalar(6), remote: Scalar(6) })]
    );
    assert_eq!(
        net.on_update_ok(UpdateOk(Scalar(7))).unwrap(),
        vec![
            CausalAction::Send(To::All, Clocked { clock: Scalar(7), inner: Message::Request(1) }),
            CausalAction::Update(Update { prev: Scalar(7), remote: Scalar(9) }),
        ]
    );
    assert_eq!(
        net.on_update_ok(UpdateOk(Scalar(10))).unwrap(),
        vec![CausalAction::Deliver(Clocked { clock: Scalar(9), inner: Message::Ack(2) })]
    );
    assert_eq!(net.on_update_ok(UpdateOk(Scalar(11))), Err(Error::UnexpectedUpdateOk));
    // with nothing under way, work is taken up at once
    assert_eq!(
        net.on_send(To::Processor(2), Message::Ack(1)),
        vec![CausalAction::Update(Update { prev: Scalar(10), remote: Scalar(10) })]
    );
}

#[test]
fn lamport_clock_goes_past_both() {
    let send = |prev: u64, remote: u64| Lamport.send(Update { prev: Scalar(prev), remote: Scalar(remote) });
    assert_eq!(send(5, 5), Ok(UpdateOk(Scalar(6))));
    assert_eq!(send(5, 9), Ok(UpdateOk(Scalar(10))));
    assert_eq!(send(9, 5), Ok(UpdateOk(Scalar(10))));
    assert_eq!(send(u64::MAX - 1, 0), Ok(UpdateOk(Scalar(u64::MAX))));
    assert_eq!(send(0, u64::MAX), Err(Error::Exhausted));
}

#[test]
fn clocks_reduce_to_a_scalar() {
    assert_eq!(Scalar(7).reduce(), 7);
    let version =
        OrdinaryVersion([(1u64, 3u32), (2, 0), (9, 4)].into_iter().collect::<BTreeMap<_, _>>());
    assert_eq!(version.reduce(), 7);
    assert_eq!(OrdinaryVersion::new().reduce(), 0);
    let large = OrdinaryVersion(
        [(1u64, u32::MAX), (2, u32::MAX)].into_iter().collect::<BTreeMap<_, _>>(),
    );
    assert_eq!(large.reduce(), 2 * (u32::MAX as u64));
}

#[test]
fn replicated_clock_is_the_place_in_the_log() {
    let mut clocks = Replicated::new();
    assert_eq!(
        clocks.deliver(Message::Request(2)),
        Some(Clocked { clock: Scalar(1), inner: Message::Request(2) })
    );
    assert_eq!(
        clocks.deliver(Message::Ack(0)),
        Some(Clocked { clock: Scalar(2), inner: Message::Ack(0) })
    );
    let mut last = Replicated { delivered: u64::MAX };
    assert_eq!(last.deliver(Message::Release(2)), None);
    assert_eq!(last.delivered, u64::MAX);
}
