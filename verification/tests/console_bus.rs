//! The console message bus.

use esprit2::console::{Color, Colors, Console, MessagePrinter};

#[test]
fn producers_append_and_the_consumer_drains() {
    let mut console = Console::new(Colors::default());
    console.print(b"hello".to_vec());
    console.print_colored(b"ouch".to_vec(), Color { r: 255, g: 0, b: 0, a: 255 });
    console.say(b"Luvui".to_vec(), b"Hi!".to_vec());
    console.combat_log(b"3 damage".to_vec());
    assert_eq!(console.messages.len(), 4);

    let drained = console.drain();
    assert!(console.messages.is_empty());
    assert_eq!(drained.len(), 4);
    assert_eq!(drained[0].text, b"hello".to_vec());
    match &drained[0].printer {
        MessagePrinter::Console(c) => assert_eq!(*c, Colors::default().normal),
        other => panic!("expected a plain console line, got {:?}", other),
    }
    match &drained[2].printer {
        MessagePrinter::Dialogue { speaker } => assert_eq!(speaker, &b"Luvui".to_vec()),
        other => panic!("expected dialogue, got {:?}", other),
    }
    assert!(matches!(drained[3].printer, MessagePrinter::Combat));

    // Draining again yields nothing: messages go exactly once.
    assert!(console.drain().is_empty());
}
