use nats_icwt::cliente::{
    handle_subscription_update, quitar_suscripcion, Consumer, NatsClientError, SuscriptionHandler,
};

#[test]
fn test01_matches_exact() {
    let sub = SuscriptionHandler::new(0, "INCIDENTES", None).unwrap();
    assert!(sub.matches("INCIDENTES"));
}

#[test]
fn test02_case_sensitive() {
    let sub = SuscriptionHandler::new(0, "inCidentEs", None).unwrap();

    assert!(!sub.matches("INCIDENTES"));
}

#[test]
fn test03_multiple_tokens() {
    let sub = SuscriptionHandler::new(0, "foo.baz", None).unwrap();

    assert!(sub.matches("foo.baz"));
}

#[test]
fn test04_wildcard_ok() {
    let sub = SuscriptionHandler::new(0, "foo.*.baz", None).unwrap();

    assert!(sub.matches("foo.any.baz"));
}

#[test]
fn test05_fullwildcard_ok() {
    let sub = SuscriptionHandler::new(0, "foo.>", None).unwrap();

    assert!(sub.matches("foo.bar.baz.1"));
}

#[test]
fn test06_invalid_wildcard() {
    let sub_handler = SuscriptionHandler::new(0, "foo*.bar", None);

    assert!(matches!(sub_handler.unwrap_err(), NatsClientError::InvalidSubject));
}

#[test]
fn test07_invalid_fullwildcard() {
    let sub_handler = SuscriptionHandler::new(0, "foo>", None);

    assert!(matches!(sub_handler.unwrap_err(), NatsClientError::InvalidSubject));
}

#[test]
fn test08_fullwildcard_in_the_middle() {
    let sub_handler = SuscriptionHandler::new(0, "foo.>.aca", None);

    assert!(matches!(sub_handler.unwrap_err(), NatsClientError::InvalidSubject));
}

#[test]
fn comodin_asterisco_acepta_un_solo_token() {
    let sub = SuscriptionHandler::new(0, "foo.*", None).unwrap();
    assert!(sub.matches("foo.bar"));
    assert!(!sub.matches("foo.bar.baz"));
    assert!(!sub.matches("foo"));
}

#[test]
fn confirmacion_de_consumidor() {
    let c = Consumer::new("stream", "cons");
    assert_eq!(c.to_command("7"), "$JS.ACK.stream.cons.7\r\n");
}

#[test]
fn entrega_a_la_primera_suscripcion_que_coincide() {
    let mut subs = vec![
        SuscriptionHandler::new(1, "a.b", None).unwrap(),
        SuscriptionHandler::new(2, "a.*", None).unwrap(),
    ];
    let e = handle_subscription_update(&mut subs, "a.c", None, " hola ", None).unwrap();
    assert_eq!(e.id, 2);
    assert_eq!(e.payload, "hola");
    assert!(e.ack.is_none());
    assert!(!e.terminar);
    assert!(handle_subscription_update(&mut subs, "x", None, "hola", None).is_none());
}

#[test]
fn entrega_de_consumidor_quita_el_id_y_confirma() {
    let mut subs = vec![SuscriptionHandler::new(1, "entrega", Some(Consumer::new("s", "c"))).unwrap()];
    let e = handle_subscription_update(&mut subs, "entrega", None, "12.hola", Some(" h ")).unwrap();
    assert_eq!(e.payload, "hola");
    assert_eq!(e.ack.unwrap(), "$JS.ACK.s.c.12\r\n");
    assert_eq!(e.headers.unwrap(), "h");
}

#[test]
fn suscripcion_con_maximo_termina_con_su_ultimo_mensaje() {
    let mut subs = vec![SuscriptionHandler::new(1, "a", None).unwrap()];
    assert_eq!(quitar_suscripcion(&mut subs, 1, Some(2)).unwrap(), false);
    let e1 = handle_subscription_update(&mut subs, "a", None, "1", None).unwrap();
    assert!(!e1.terminar);
    let e2 = handle_subscription_update(&mut subs, "a", None, "2", None).unwrap();
    assert!(e2.terminar);
    assert!(subs.is_empty());
}

#[test]
fn quitar_suscripcion_inexistente_es_error() {
    let mut subs = vec![SuscriptionHandler::new(1, "a", None).unwrap()];
    assert!(matches!(
        quitar_suscripcion(&mut subs, 5, None),
        Err(NatsClientError::SubscriptionNotFound)
    ));
    assert_eq!(quitar_suscripcion(&mut subs, 1, None).unwrap(), true);
    assert!(subs.is_empty());
}
