use youtube_summarizer_server::error::Error;
use youtube_summarizer_server::model::{ClientTicket, Controller};

#[test]
fn create_list_delete_tickets() {
    let mut c = Controller::new(Vec::new()).unwrap();
    let t0 = c.create_ticket(ClientTicket::new("first".to_string())).unwrap();
    let t1 = c.create_ticket(ClientTicket::new("second".to_string())).unwrap();
    assert_eq!((t0.id(), t0.title()), (0, "first"));
    assert_eq!((t1.id(), t1.title()), (1, "second"));

    let listed = c.list_tickets().unwrap();
    assert_eq!(listed.iter().map(|t| t.id()).collect::<Vec<_>>(), vec![0, 1]);

    let deleted = c.delete_ticket(0).unwrap();
    assert_eq!(deleted.title(), "first");
    let listed = c.list_tickets().unwrap();
    assert_eq!(listed.iter().map(|t| t.title().to_string()).collect::<Vec<_>>(), vec!["second"]);

    assert!(matches!(c.delete_ticket(0), Err(Error::TicketDeleteFailureIdNotFound { id: 0 })));
    assert!(matches!(c.delete_ticket(7), Err(Error::TicketDeleteFailureIdNotFound { id: 7 })));

    let t2 = c.create_ticket(ClientTicket::new("third".to_string())).unwrap();
    assert_eq!(t2.id(), 2);
}
