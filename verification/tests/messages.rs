use polymodo::app::{
    driver_for, new_app_key, Abortable, AbortOnDrop, App, AppDriver, AppMessage, AppName, AppSender,
};
use polymodo::cli::Args;
use polymodo::ipc::{
    AppSpawnOptions, ClientboundMessage, IpcC2S, IpcReceiveError, IpcS2C, ServerboundMessage, Wire,
    SOCKET_NAME,
};
use polymodo::notify::Notify;
use polymodo::polymodo::{Polymodo, PolymodoError};
use polymodo::repaint::{LiveHandle, RepaintRequest, RepaintRequests};
use polymodo::server::{reply_with_result, serve_client, ServeStep};
use polymodo::session::{choose_role, connects, farewell, request, result_of, Connection, Role};
use polymodo::windowing::client::SurfaceEvent;
use polymodo::windowing::surface::ViewportId;
use polymodo::wire::WireError;
use std::cell::Cell;
use std::rc::Rc;

fn spawn(single: bool) -> ServerboundMessage {
    ServerboundMessage::Spawn(AppSpawnOptions { app_name: AppName::Launcher, single })
}

fn text_of(message: &ClientboundMessage) -> String {
    match message {
        ClientboundMessage::Pong => "pong".to_string(),
        ClientboundMessage::Running(name, running) => format!("{name} {running}"),
        ClientboundMessage::AppResult(result) => result.clone(),
    }
}

#[test]
fn messages_have_their_bytes() {
    assert_eq!(ServerboundMessage::Ping.encode(), vec![0]);
    assert_eq!(spawn(true).encode(), vec![1, 0, 1]);
    assert_eq!(spawn(false).encode(), vec![1, 0, 0]);
    assert_eq!(ServerboundMessage::Goodbye.encode(), vec![2]);
    assert_eq!(ClientboundMessage::Pong.encode(), vec![0]);
    assert_eq!(
        ClientboundMessage::Running("ab".to_string(), true).encode(),
        vec![1, 2, b'a', b'b', 1]
    );
    assert_eq!(ClientboundMessage::AppResult("null".to_string()).encode(), b"\x02\x04null".to_vec());
    let long = "x".repeat(300);
    let bytes = ClientboundMessage::AppResult(long.clone()).encode();
    assert_eq!(bytes[..4], [2, 251, 44, 1]);
    assert_eq!(bytes.len(), 304);
    let longer = "x".repeat(70_000);
    let bytes = ClientboundMessage::AppResult(longer).encode();
    assert_eq!(bytes[..6], [2, 252, 0x70, 0x11, 1, 0]);
}

#[test]
fn messages_are_encoded_as_their_parts() {
    let config = bincode::config::standard();
    let bytes = bincode::encode_to_vec((1u32, 0u32, true), config).unwrap();
    assert_eq!(spawn(true).encode(), bytes);
    for text in ["", "null", "\u{1f600}", &"x".repeat(1000), &"x".repeat(100_000)] {
        let bytes = bincode::encode_to_vec((2u32, text), config).unwrap();
        assert_eq!(ClientboundMessage::AppResult(text.to_string()).encode(), bytes);
        let bytes = bincode::encode_to_vec((1u32, text, false), config).unwrap();
        assert_eq!(ClientboundMessage::Running(text.to_string(), false).encode(), bytes);
    }
}

#[test]
fn messages_are_read_back() {
    for message in [ServerboundMessage::Ping, spawn(true), spawn(false), ServerboundMessage::Goodbye] {
        let mut bytes = message.encode();
        let length = bytes.len();
        bytes.extend_from_slice(&[9, 9]);
        assert_eq!(ServerboundMessage::decode(&bytes), Ok((message, length)));
        for k in 0..length {
            assert_eq!(
                ServerboundMessage::decode(&bytes[..k].to_vec()),
                Err(WireError::Incomplete)
            );
        }
    }
    for text in ["", "a", "\u{e4}\u{1f600}", &"y".repeat(251), &"z".repeat(66_000)] {
        for message in [
            ClientboundMessage::AppResult(text.to_string()),
            ClientboundMessage::Running(text.to_string(), false),
        ] {
            let bytes = message.encode();
            let (back, used) = ClientboundMessage::decode(&bytes).ok().unwrap();
            assert_eq!(used, bytes.len());
            assert_eq!(text_of(&back), text_of(&message));
            let part = bytes[..bytes.len() - 1].to_vec();
            assert_eq!(ClientboundMessage::decode(&part).err(), Some(WireError::Incomplete));
        }
    }
}

#[test]
fn other_bytes_are_no_message() {
    for bytes in [vec![3u8], vec![1, 1], vec![1, 0, 2], vec![253], vec![254], vec![255]] {
        assert_eq!(ServerboundMessage::decode(&bytes), Err(WireError::Invalid));
    }
    for bytes in [vec![3u8], vec![2, 1, 0xff], vec![2, 254], vec![1, 0, 7]] {
        assert_eq!(ClientboundMessage::decode(&bytes).err(), Some(WireError::Invalid));
    }
    let huge = vec![2u8, 253, 0xff, 0xff, 0xff, 0xff, 0xff, 0xff, 0xff, 0xff, 1];
    assert_eq!(ClientboundMessage::decode(&huge).err(), Some(WireError::Incomplete));
    assert_eq!(ServerboundMessage::decode(&vec![251, 1, 0, 0, 0]), Ok((spawn(false), 5)));
}

#[test]
fn sent_messages_are_received_whatever_the_pieces() {
    let client = IpcC2S::new();
    let sent = [spawn(true), ServerboundMessage::Ping, ServerboundMessage::Goodbye];
    let mut bytes = Vec::new();
    for message in &sent {
        bytes.append(&mut client.send(message));
    }
    for size in 1..=bytes.len() {
        let mut server = IpcS2C::new();
        let mut received = Vec::new();
        for piece in bytes.chunks(size) {
            assert_eq!(server.on_read(&mut piece.to_vec()), Ok(()));
            while let Ok(Some(message)) = server.recv() {
                received.push(message);
            }
        }
        assert_eq!(received, sent.to_vec());
        assert!(matches!(server.recv(), Ok(None)));
    }
}

#[test]
fn connection_ends_with_an_error() {
    let mut server = IpcS2C::new();
    assert_eq!(server.on_read(&mut Vec::new()), Err(IpcReceiveError::BrokenPipe));
    assert_eq!(server.on_read(&mut vec![7]), Ok(()));
    assert_eq!(server.recv(), Err(IpcReceiveError::DecodeError));
    assert_eq!(server.recv(), Err(IpcReceiveError::DecodeError));
}

#[test]
fn socket_has_a_name() {
    assert_eq!(SOCKET_NAME, "polymodo.sock");
}

#[derive(Default)]
struct Counter {
    received: Vec<u32>,
}

impl App for Counter {
    type Message = u32;
    type Output = Vec<u32>;
    const NAME: AppName = AppName::Launcher;

    fn create(_message_sender: AppSender) -> Self {
        Counter::default()
    }

    fn on_message(&mut self, message: u32) {
        self.received.push(message);
    }

    fn stop(self) -> Vec<u32> {
        self.received
    }
}

struct Task(Rc<Cell<u32>>);

impl Abortable for Task {
    fn abort(&self) {
        self.0.set(self.0.get() + 1);
    }
}

type CounterDriver = AppDriver<Counter, Task>;

#[test]
fn driver_hands_messages_to_its_app() {
    let sender = AppSender::new(5);
    let mut driver: CounterDriver = driver_for(5, Counter::create(sender));
    assert_eq!(driver.key(), 5);
    assert_eq!(driver.app_name(), AppName::Launcher);
    driver.on_message(Some(1));
    driver.on_message(None);
    driver.on_message(Some(2));
    assert_eq!(driver.stop(), vec![1, 2]);
    driver.on_message(None);
}

#[test]
fn task_is_stopped_once() {
    let stops = Rc::new(Cell::new(0));
    let mut task = AbortOnDrop::new(Task(stops.clone()));
    assert!(task.abort());
    assert!(!task.abort());
    assert_eq!(stops.get(), 1);
    LiveHandle(Task(stops.clone())).abort();
    assert_eq!(stops.get(), 2);
}

#[test]
fn tasks_go_with_their_driver() {
    let stops = Rc::new(Cell::new(0));
    let mut driver: CounterDriver = driver_for(1, Counter::default());
    driver.add_abortable(AbortOnDrop::new(Task(stops.clone())));
    driver.add_abortable(AbortOnDrop::new(Task(stops.clone())));
    driver.abort_all();
    assert_eq!(stops.get(), 2);
    driver.abort_all();
    assert_eq!(stops.get(), 2);
    driver.add_abortable(AbortOnDrop::new(Task(stops.clone())));
    let mut polymodo: Polymodo<CounterDriver> = Polymodo::new();
    polymodo.spawn_app(1, driver);
    assert!(polymodo.add_abortable(1, AbortOnDrop::new(Task(stops.clone()))).is_none());
    assert!(polymodo.stop_app(1).is_ok());
    assert_eq!(stops.get(), 4);
    let mut refused = polymodo.add_abortable(1, AbortOnDrop::new(Task(stops.clone()))).unwrap();
    assert!(refused.abort());
    assert_eq!(stops.get(), 5);
}

#[test]
fn events_name_the_app_that_sends() {
    let sender = AppSender::new(8);
    let stops = Rc::new(Cell::new(0));
    let event = sender.send::<u32, Task>(3);
    assert_eq!(event.app_key, 8);
    assert!(matches!(event.message, AppMessage::Message(3)));
    let event = sender.finish::<u32, Task>();
    assert!(matches!(event.message, AppMessage::Finished));
    let event = sender.spawn::<u32, Task>(Task(stops.clone()));
    match event.message {
        AppMessage::SpawnLocal(mut task) => assert!(task.abort()),
        _ => panic!("no task"),
    }
    assert_eq!(stops.get(), 1);
    let message = polymodo::windowing::app::AppSender::new(4).send("m");
    assert_eq!((message.app_key, message.message), (4, "m"));
}

#[test]
fn apps_are_spawned_and_stopped() {
    let mut polymodo: Polymodo<CounterDriver> = Polymodo::new();
    assert!(!polymodo.is_app_running(AppName::Launcher));
    assert_eq!(polymodo.stop_app(3), Err(PolymodoError::NoSuchApp(3)));
    polymodo.spawn_app(3, driver_for(3, Counter::default()));
    polymodo.spawn_app(4, driver_for(4, Counter::default()));
    assert!(polymodo.is_app_running(AppName::Launcher));
    assert!(polymodo.handle_app_message(3, Some(10)));
    assert!(polymodo.handle_app_message(3, None));
    assert!(polymodo.handle_app_message(4, Some(11)));
    assert!(!polymodo.handle_app_message(9, Some(12)));
    assert_eq!(polymodo.stop_app(3), Ok(vec![10]));
    assert_eq!(polymodo.stop_app(3), Err(PolymodoError::NoSuchApp(3)));
    assert!(!polymodo.handle_app_message(3, Some(13)));
    assert!(polymodo.is_app_running(AppName::Launcher));
    assert_eq!(polymodo.stop_app(4), Ok(vec![11]));
    assert!(!polymodo.is_app_running(AppName::Launcher));
    assert_eq!(polymodo.app_sender(6).send::<u32, Task>(0).app_key, 6);
}

#[test]
fn keys_of_apps_differ() {
    let keys: Vec<u32> = (0..8).map(|_| new_app_key()).collect();
    assert!(keys.iter().any(|k| *k != keys[0]));
}

#[test]
fn client_is_served() {
    let mut polymodo: Polymodo<CounterDriver> = Polymodo::new();
    assert!(matches!(
        serve_client(Ok(ServerboundMessage::Ping), &polymodo),
        ServeStep::Reply(ClientboundMessage::Pong)
    ));
    let spawns = ServeStep::SpawnAndWait(AppName::Launcher);
    let same = |step: ServeStep| matches!((step, &spawns), (ServeStep::SpawnAndWait(a), ServeStep::SpawnAndWait(b)) if a == *b);
    assert!(same(serve_client(Ok(spawn(true)), &polymodo)));
    polymodo.spawn_app(1, driver_for(1, Counter::default()));
    assert!(matches!(serve_client(Ok(spawn(true)), &polymodo), ServeStep::Close));
    assert!(same(serve_client(Ok(spawn(false)), &polymodo)));
    assert!(matches!(serve_client(Ok(ServerboundMessage::Goodbye), &polymodo), ServeStep::Shutdown));
    for error in [IpcReceiveError::DecodeError, IpcReceiveError::BrokenPipe] {
        assert!(matches!(serve_client(Err(error), &polymodo), ServeStep::Close));
    }
}

#[test]
fn result_reaches_the_client() {
    for (result, text) in [
        (None, "the server could not retrieve the app's result"),
        (Some(Ok("null".to_string())), "null"),
        (Some(Err("broken".to_string())), "broken"),
    ] {
        let server = IpcS2C::new();
        let mut bytes = server.send(&reply_with_result(result));
        let mut client = IpcC2S::new();
        assert_eq!(client.on_read(&mut bytes), Ok(()));
        let answer = client.recv().ok().unwrap().unwrap();
        assert_eq!(result_of(answer).as_deref(), Some(text));
    }
    assert!(result_of(ClientboundMessage::Pong).is_none());
    assert!(result_of(ClientboundMessage::Running("a".to_string(), true)).is_none());
}

#[test]
fn role_follows_from_the_connection() {
    let args = |standalone: bool| Args { standalone, single: true };
    for connection in [Connection::Connected, Connection::Refused, Connection::Failed] {
        assert_eq!(choose_role(&args(true), connection), Role::Standalone);
    }
    assert_eq!(choose_role(&args(false), Connection::Connected), Role::Client);
    assert_eq!(choose_role(&args(false), Connection::Refused), Role::Server);
    assert_eq!(choose_role(&args(false), Connection::Failed), Role::Exit);
    assert!(connects(&args(false)) && !connects(&args(true)));
    assert_eq!(request(&args(false)), spawn(true));
    assert_eq!(farewell(), ServerboundMessage::Goodbye);
}

#[test]
fn notifications_do_not_pile_up() {
    let mut notify = Notify::new();
    assert!(!notify.try_acquire());
    notify.notify();
    notify.notify();
    notify.notify();
    assert!(notify.try_acquire());
    assert!(!notify.try_acquire());
    notify.notify();
    assert!(notify.try_acquire());
    notify.release();
    assert!(notify.try_acquire());
}

#[test]
fn last_repaint_request_is_waited_for() {
    let mut requests = RepaintRequests::new(9);
    let info = |delay: u128, pass: u64| RepaintRequest {
        viewport_id: ViewportId(3),
        delay,
        current_cumulative_pass_nr: pass,
    };
    let plan = requests.request(info(0, 1));
    assert!(!plan.abort_previous);
    assert_eq!(plan.sleep, None);
    assert!(matches!(plan.event, SurfaceEvent::NeedsRepaintViewport(9, ViewportId(3), 1)));
    let plan = requests.request(info(500, 2));
    assert!(plan.abort_previous);
    assert_eq!(plan.sleep, Some(500));
    assert!(matches!(plan.event, SurfaceEvent::NeedsRepaintViewport(9, ViewportId(3), 2)));
}
