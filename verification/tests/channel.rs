use threads::channel::Channel;
use threads::message::Message;

#[test]
fn channel_delivers_in_send_order() {
    let mut c: Channel<u32> = Channel::new();
    assert!(c.is_empty());
    c.send(Message::NewJob(1));
    c.send(Message::Terminate);
    c.send(Message::NewJob(2));
    assert_eq!(c.len(), 3);
    assert!(matches!(c.receive(), Message::NewJob(1)));
    assert!(matches!(c.receive(), Message::Terminate));
    assert!(matches!(c.receive(), Message::NewJob(2)));
    assert!(c.is_empty());
}

#[test]
fn channel_delivers_each_message_once() {
    let mut c: Channel<&'static str> = Channel::new();
    c.send(Message::NewJob("only"));
    assert!(matches!(c.receive(), Message::NewJob("only")));
    assert_eq!(c.len(), 0);
}
