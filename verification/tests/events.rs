use che_rest::error::AppError;
use che_rest::events::CommandRegistry;

#[test]
fn commands_go_to_the_handler_registered_under_their_name() {
    let registry = CommandRegistry::new(vec!["archive".to_string(), "publish".to_string()]);
    assert_eq!(registry.dispatch_target("publish").unwrap(), 1);
    assert_eq!(registry.dispatch_target("archive").unwrap(), 0);
    assert_eq!(registry.names().len(), 2);
}

#[test]
fn unknown_commands_are_bad_requests() {
    let registry = CommandRegistry::new(vec!["archive".to_string()]);
    match registry.dispatch_target("delete") {
        Err(AppError::BadRequest(message)) => assert_eq!(message, "unknown command: delete"),
        other => panic!("expected a bad request, got {:?}", other),
    }
    assert!(CommandRegistry::new(vec![]).dispatch_target("archive").is_err());
}
