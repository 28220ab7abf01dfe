use std::cell::Cell;
use std::collections::HashMap;
use std::rc::Rc;

use coinbase::handler::{
    dispatch, terminate_if_any, CoinBaseWebSocketMessageHandler,
    CompositeCoinBaseWebSocketMessageHandler, Terminate,
};
use coinbase::response::{ErrorResponse, ResponseMessages, SubscriptionResponse};

struct Counting {
    calls: Rc<Cell<u32>>,
    answer: Result<(), Terminate>,
}

impl CoinBaseWebSocketMessageHandler for Counting {
    fn initialize(&mut self) -> Result<(), Terminate> {
        self.calls.set(self.calls.get() + 1);
        self.answer
    }

    fn on_subscriptions(&mut self, _resp: &SubscriptionResponse) -> Result<(), Terminate> {
        self.calls.set(self.calls.get() + 1);
        self.answer
    }

    fn on_error(&mut self, _resp: &ErrorResponse) -> Result<(), Terminate> {
        self.calls.set(self.calls.get() + 1);
        self.answer
    }

    fn close(&mut self) -> Result<(), Terminate> {
        self.calls.set(self.calls.get() + 1);
        self.answer
    }
}

fn sink(calls: &Rc<Cell<u32>>, answer: Result<(), Terminate>) -> Box<dyn CoinBaseWebSocketMessageHandler> {
    Box::new(Counting { calls: calls.clone(), answer })
}

struct Silent;

impl CoinBaseWebSocketMessageHandler for Silent {}

#[test]
fn composite_calls_every_sink_and_reports_terminate() {
    let (a, b, c) = (Rc::new(Cell::new(0)), Rc::new(Cell::new(0)), Rc::new(Cell::new(0)));
    let mut composite = CompositeCoinBaseWebSocketMessageHandler::new(vec![
        sink(&a, Ok(())),
        sink(&b, Err(Terminate)),
        sink(&c, Ok(())),
    ]);
    assert_eq!(composite.initialize(), Err(Terminate));
    let ack = ResponseMessages::Subscriptions { resp: SubscriptionResponse { channels: vec![] } };
    assert_eq!(dispatch(&mut composite, &ack), Err(Terminate));
    let err = ResponseMessages::Error { resp: ErrorResponse { msg: "x".to_string(), extra: HashMap::new() } };
    assert_eq!(dispatch(&mut composite, &err), Err(Terminate));
    assert_eq!(composite.close(), Err(Terminate));
    assert_eq!((a.get(), b.get(), c.get()), (4, 4, 4));
}

#[test]
fn composite_of_willing_sinks_goes_on() {
    let (a, b) = (Rc::new(Cell::new(0)), Rc::new(Cell::new(0)));
    let mut composite = CompositeCoinBaseWebSocketMessageHandler::new(vec![sink(&a, Ok(())), sink(&b, Ok(()))]);
    assert_eq!(composite.initialize(), Ok(()));
    assert_eq!((a.get(), b.get()), (1, 1));
}

#[test]
fn empty_composite_goes_on() {
    let mut composite: CompositeCoinBaseWebSocketMessageHandler = CompositeCoinBaseWebSocketMessageHandler::new(vec![]);
    assert_eq!(composite.initialize(), Ok(()));
    assert_eq!(composite.close(), Ok(()));
}

#[test]
fn default_callbacks_go_on() {
    let mut s = Silent;
    assert_eq!(s.initialize(), Ok(()));
    let ack = ResponseMessages::Subscriptions { resp: SubscriptionResponse { channels: vec![] } };
    assert_eq!(dispatch(&mut s, &ack), Ok(()));
    assert_eq!(s.close(), Ok(()));
}

#[test]
fn outcomes_fold_to_terminate_if_any() {
    assert_eq!(terminate_if_any(&vec![]), Ok(()));
    assert_eq!(terminate_if_any(&vec![Ok(()), Ok(())]), Ok(()));
    assert_eq!(terminate_if_any(&vec![Ok(()), Err(Terminate), Ok(())]), Err(Terminate));
}
