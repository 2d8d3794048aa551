use nats_icwt::acciones::Accion;
use nats_icwt::carga::{_load_file_storage, ids_acotados_exec, separate_consumers};
use nats_icwt::consumidor::ConcurrentConsumer;
use nats_icwt::cripto::encrypt;
use nats_icwt::errores::ErroresServer;
use nats_icwt::cliente::Consumer;
use nats_icwt::ejecutor::CommandExecutor;
use nats_icwt::usuarios::InMemoryUsersRepository;
use nats_icwt::jetstream::{parse_consumers_data, parse_js_data, update_csv_lines, JetStream, PushConsumer};

const JSON: &str = "{\"subjects\":[\"subject1\",\"subject2\"],\"name\":\"jetstream1\"}";

struct Rutas {
    resources: String,
    data: String,
    consumers: String,
    js_consumers: String,
}

fn rutas(n: usize) -> Rutas {
    Rutas {
        resources: "resources/".to_string(),
        data: format!("js_data_{}.csv", n),
        consumers: format!("consumers_{}.csv", n),
        js_consumers: format!("js_consumers_{}.csv", n),
    }
}

fn crear(json: &str, r: &Rutas) -> JetStream {
    JetStream::_from_json(json, &r.resources, &r.data, &r.consumers, &r.js_consumers).unwrap()
}

/// El archivo, la clave y la línea de una acción de guardado.
fn guardado(a: &Accion) -> (String, String, String) {
    match a {
        Accion::GuardarCsv { archivo, clave, linea } => (archivo.clone(), clave.clone(), linea.clone()),
        otra => panic!("se esperaba un guardado y llegó {:?}", otra),
    }
}

/// El stream, el consumidor, el mensaje y el id de un envío a un consumidor.
fn envio(a: &Accion) -> (String, String, String, usize) {
    match a {
        Accion::EnviarAConsumidor { stream, consumidor, msg, id } => {
            (stream.clone(), consumidor.clone(), msg.clone(), *id)
        }
        otra => panic!("se esperaba un envío y llegó {:?}", otra),
    }
}

/// La última línea guardada en el archivo dado.
fn ultima_linea(acciones: &[Accion], archivo: &str, clave: &str) -> Option<String> {
    acciones
        .iter()
        .filter_map(|a| match a {
            Accion::GuardarCsv { archivo: f, clave: k, linea } if f == archivo && k == clave => {
                Some(linea.clone())
            }
            _ => None,
        })
        .last()
}

fn mensajes(js: &JetStream) -> Vec<(String, usize)> {
    js.mensajes().clone()
}

fn publicacion(subject: &str, texto: &str) -> String {
    format!("PUB {} {}\r\n{}\r\n", subject, encrypt(texto.as_bytes()).unwrap().len(), texto)
}

#[test]
fn test_jetstream_from_json() {
    let js = JetStream::from_json(JSON).unwrap();

    assert_eq!(js.name, "jetstream1");
    assert_eq!(js.subjects, vec!["subject1".to_string(), "subject2".to_string()]);
}

#[test]
fn test_jetstream_from_json_invalid_json() {
    let json = "{\"subjects\":[\"subject1\",\"subject2\"],\"name\":\"jetstream1\"";

    let js = JetStream::from_json(json);

    assert!(matches!(js, Err(ErroresServer::InvalidJson)));
}

#[test]
fn from_json_rechaza_subjects_que_no_son_textos() {
    let json = "{\"subjects\":[\"subject1\",2],\"name\":\"jetstream1\"}";
    assert!(matches!(JetStream::from_json(json), Err(ErroresServer::InvalidJson)));
    let sin_nombre = "{\"subjects\":[\"subject1\"]}";
    assert!(matches!(JetStream::from_json(sin_nombre), Err(ErroresServer::InvalidJson)));
}

#[test]
fn test_jetstream_store_msg() {
    let r = rutas(3);
    let mut js = crear(JSON, &r);
    let mut acciones = Vec::new();

    js.store_msg("hola", &mut acciones);

    let relacion = ultima_linea(&acciones, "resources/js_consumers_3.csv", "jetstream1").unwrap();
    let datos = ultima_linea(&acciones, "resources/js_data_3.csv", "jetstream1").unwrap();
    assert_eq!("jetstream1", relacion);
    assert_eq!("jetstream1,subject1,0 hola", datos);
    assert_eq!(mensajes(&js), vec![("hola".to_string(), 0)]);
}

#[test]
fn test_jetstream_store_multiple_msgs() {
    let r = rutas(4);
    let mut js = crear(JSON, &r);
    let mut acciones = Vec::new();

    js.store_msg("hola", &mut acciones);
    js.store_msg("chau", &mut acciones);

    let relacion = ultima_linea(&acciones, "resources/js_consumers_4.csv", "jetstream1").unwrap();
    let datos = ultima_linea(&acciones, "resources/js_data_4.csv", "jetstream1").unwrap();
    assert_eq!("jetstream1", relacion);
    assert_eq!("jetstream1,subject1,0 hola,1 chau", datos);
    assert_eq!(mensajes(&js), vec![("hola".to_string(), 0), ("chau".to_string(), 1)]);
}

#[test]
fn test_multiple_jetstreams() {
    let r = rutas(5);
    let second_json = "{\"subjects\":[\"subject3\",\"subject4\"],\"name\":\"jetstream2\"}";
    let mut first_js = crear(JSON, &r);
    let mut second_js = crear(second_json, &r);
    let mut acciones = Vec::new();

    first_js.store_msg("mensaje en jetstream1", &mut acciones);
    second_js.store_msg("mensaje en jetstream2", &mut acciones);
    first_js.store_msg("otro mensaje en jetstream1", &mut acciones);

    assert_eq!(
        mensajes(&first_js),
        vec![
            ("mensaje en jetstream1".to_string(), 0),
            ("otro mensaje en jetstream1".to_string(), 1)
        ]
    );
    assert_eq!(mensajes(&second_js), vec![("mensaje en jetstream2".to_string(), 0)]);
    assert_eq!(
        "jetstream1,subject1,0 mensaje en jetstream1,1 otro mensaje en jetstream1",
        ultima_linea(&acciones, "resources/js_data_5.csv", "jetstream1").unwrap()
    );
    assert_eq!(
        "jetstream2,subject3,0 mensaje en jetstream2",
        ultima_linea(&acciones, "resources/js_data_5.csv", "jetstream2").unwrap()
    );
}

#[test]
fn test_jetstream_add_consumer() {
    let r = rutas(6);
    let mut js = crear(JSON, &r);
    let consumer = PushConsumer::new("subject1", "consumer1", 0);
    let mut acciones = Vec::new();

    js.add_consumer(consumer, &mut acciones);

    assert_eq!(acciones.len(), 1);
    let (archivo, clave, linea) = guardado(&acciones[0]);
    assert_eq!(archivo, "resources/js_consumers_6.csv");
    assert_eq!(clave, "jetstream1");
    assert_eq!("jetstream1,consumer1", linea);
    assert_eq!("consumer1,subject1,0", js.consumidores()[0].to_csv());
    assert_eq!(js.consumidores().len(), 1);
}

#[test]
fn agregar_un_consumidor_repetido_no_cambia_nada() {
    let r = rutas(16);
    let mut js = crear(JSON, &r);
    let mut acciones = Vec::new();
    js.add_consumer(PushConsumer::new("subject1", "consumer1", 0), &mut acciones);
    js.add_consumer(PushConsumer::new("otro", "consumer1", 4), &mut acciones);

    assert_eq!(acciones.len(), 1);
    assert_eq!(js.consumidores().len(), 1);
    assert_eq!(js.consumidores()[0].subject_de_entrega(), "subject1");
}

#[test]
fn test_consumer_notifies_when_storing_msg() {
    let r = rutas(7);
    let mut js = crear(JSON, &r);
    let mut acciones = Vec::new();
    js.add_consumer(PushConsumer::new("subject1", "consumer1", 0), &mut acciones);
    let mut hilo = ConcurrentConsumer::new(0, "subject1");
    let expected_msg = publicacion("subject1", "0.hola");
    acciones.clear();

    js.store_msg("hola", &mut acciones);

    assert_eq!(
        envio(&acciones[0]),
        ("jetstream1".to_string(), "consumer1".to_string(), "hola".to_string(), 0)
    );
    assert_eq!(hilo.process_message("hola", 0), Some(expected_msg));
}

#[test]
fn test_consumer_notifies_multiple_times_if_not_ack() {
    let expected_msg = publicacion("subject1", "0.hola");
    let mut hilo = ConcurrentConsumer::new(0, "subject1");

    assert_eq!(hilo.process_message("hola", 0), Some(expected_msg.clone()));
    assert_eq!(hilo.process_messages_with_timeout(), Some(expected_msg));
}

#[test]
fn test_consumer_stops_notifying_if_ack() {
    let r = rutas(9);
    let mut js = crear(JSON, &r);
    let mut acciones = Vec::new();
    js.add_consumer(PushConsumer::new("subject1", "consumer1", 0), &mut acciones);
    let mut hilo = ConcurrentConsumer::new(0, "subject1");
    js.store_msg("hola", &mut acciones);
    hilo.process_message("hola", 0).unwrap();
    acciones.clear();

    js.ack("consumer1", 1, &mut acciones).unwrap();

    assert!(matches!(&acciones[0], Accion::AckConsumidor { consumidor, id: 1, .. } if consumidor == "consumer1"));
    hilo.ack_recibido();
    assert!(!hilo.esperando());
}

#[test]
fn ack_de_un_consumidor_inexistente_es_error() {
    let r = rutas(17);
    let mut js = crear(JSON, &r);
    let mut acciones = Vec::new();
    let e = js.ack("nadie", 0, &mut acciones).unwrap_err();
    assert!(matches!(e, ErroresServer::InternalError(m) if m == "Consumer not found"));
    assert!(acciones.is_empty());
}

#[test]
fn test_multiple_consumers_stored_correctly() {
    let r = rutas(10);
    let mut js = crear(JSON, &r);
    let mut acciones = Vec::new();

    js.add_consumer(PushConsumer::new("subject1", "consumer1", 0), &mut acciones);
    js.add_consumer(PushConsumer::new("subject1", "consumer2", 0), &mut acciones);

    assert_eq!(
        "jetstream1,consumer1,consumer2",
        ultima_linea(&acciones, "resources/js_consumers_10.csv", "jetstream1").unwrap()
    );
    assert_eq!("consumer1,subject1,0", js.consumidores()[0].to_csv());
    assert_eq!("consumer2,subject1,0", js.consumidores()[1].to_csv());
}

#[test]
fn test_multiple_consumers_send_messages() {
    let r = rutas(11);
    let mut js = crear(JSON, &r);
    let mut acciones = Vec::new();
    js.add_consumer(PushConsumer::new("subject1", "consumer1", 0), &mut acciones);
    js.add_consumer(PushConsumer::new("subject1", "consumer2", 0), &mut acciones);
    let expected_msg = publicacion("subject1", "0.hola consumers");
    acciones.clear();

    js.store_msg("hola consumers", &mut acciones);

    assert_eq!(envio(&acciones[0]).1, "consumer1");
    assert_eq!(envio(&acciones[1]).1, "consumer2");
    let mut hilo1 = ConcurrentConsumer::new(0, "subject1");
    let mut hilo2 = ConcurrentConsumer::new(0, "subject1");
    let (_, _, m1, id1) = envio(&acciones[0]);
    let (_, _, m2, id2) = envio(&acciones[1]);
    assert_eq!(hilo1.process_message(&m1, id1), Some(expected_msg.clone()));
    assert_eq!(hilo2.process_message(&m2, id2), Some(expected_msg));
}

#[test]
fn test_multiple_consumers_one_ack_the_other_still_sends_old_msg() {
    let expected_msg_1 = publicacion("subject1", "0.hola consumers");
    let expected_msg_2 = publicacion("subject1", "1.chauuu consumers");
    let mut hilo1 = ConcurrentConsumer::new(0, "subject1");
    let mut hilo2 = ConcurrentConsumer::new(0, "subject1");
    hilo1.process_message("hola consumers", 0).unwrap();
    hilo2.process_message("hola consumers", 0).unwrap();

    hilo1.ack_recibido();

    assert_eq!(hilo2.process_messages_with_timeout(), Some(expected_msg_1));
    assert_eq!(hilo1.process_message("chauuu consumers", 1), Some(expected_msg_2));
}

fn lineas(v: &[&str]) -> Vec<String> {
    v.iter().map(|s| s.to_string()).collect()
}

#[test]
fn test_load_from_file_storage() {
    let r = rutas(13);
    let consumidores = lineas(&["consumer1,subject1,2", "consumer2,subject1,1"]);
    let relaciones = lineas(&["jetstream1,consumer1,consumer2", "jetstream2"]);
    let datos = lineas(&[
        "jetstream1,subject1,0 hola,1 como va?,2 todo bien,3 chau",
        "jetstream2,subject2,0 hola2",
    ]);
    assert!(ids_acotados_exec(&datos));
    let mut acciones = Vec::new();

    let jet_streams = _load_file_storage(
        &consumidores,
        &relaciones,
        &datos,
        &r.resources,
        &r.data,
        &r.consumers,
        &r.js_consumers,
        &mut acciones,
    );

    assert_eq!(jet_streams.len(), 2);
    assert_eq!(jet_streams[0].name, "jetstream1");
    assert_eq!(jet_streams[0].subjects, vec!["subject1".to_string()]);
    assert_eq!(
        mensajes(&jet_streams[0]),
        vec![
            ("hola".to_string(), 0),
            ("como va?".to_string(), 1),
            ("todo bien".to_string(), 2),
            ("chau".to_string(), 3)
        ]
    );
    assert_eq!(jet_streams[1].name, "jetstream2");
    assert_eq!(jet_streams[1].subjects, vec!["subject2".to_string()]);
    assert_eq!(mensajes(&jet_streams[1]), vec![("hola2".to_string(), 0)]);
    assert_eq!(jet_streams[0].siguiente_id(), 4);
}

#[test]
fn test_loaded_consumers_preserve_state() {
    let r = rutas(14);
    let consumidores = lineas(&["consumer1,delivery_subject_1,2"]);
    let relaciones = lineas(&["jetstream1,consumer1", "jetstream2"]);
    let datos = lineas(&[
        "jetstream1,subject1,0 hola,1 como va?,2 todo bien,3 chau",
        "jetstream2,subject2,0 hola2",
    ]);
    let expected_msg = publicacion("delivery_subject_1", "2.todo bien");
    let mut acciones = Vec::new();

    _load_file_storage(
        &consumidores,
        &relaciones,
        &datos,
        &r.resources,
        &r.data,
        &r.consumers,
        &r.js_consumers,
        &mut acciones,
    );

    let mut hilo = None;
    let mut primero = None;
    for a in &acciones {
        match a {
            Accion::CrearConsumidor { delivery_subject, last_ack, .. } => {
                hilo = Some(ConcurrentConsumer::new(*last_ack, delivery_subject));
            }
            Accion::EnviarAConsumidor { msg, id, .. } => {
                let h = hilo.as_mut().unwrap();
                if primero.is_none() && !h.esperando() {
                    primero = h.process_message(msg, *id);
                }
            }
            _ => {}
        }
    }
    assert_eq!(primero, Some(expected_msg));
}

#[test]
fn test_acknoledging_multiple_times_same_msg_still_send_next_msgs() {
    let r = rutas(15);
    let mut js = crear(JSON, &r);
    let mut acciones = Vec::new();
    js.add_consumer(PushConsumer::new("delivery_subject", "consumer1", 0), &mut acciones);
    let expected_msg = publicacion("delivery_subject", "1.como va?");
    js.store_msg("buenas", &mut acciones);
    js.store_msg("como va?", &mut acciones);
    let mut hilo = ConcurrentConsumer::new(0, "delivery_subject");

    js.ack("consumer1", 0, &mut acciones).unwrap();
    js.ack("consumer1", 0, &mut acciones).unwrap();
    js.ack("consumer1", 0, &mut acciones).unwrap();
    hilo.process_message("buenas", 0).unwrap();
    hilo.ack_recibido();

    assert_eq!(hilo.process_message("como va?", 1), Some(expected_msg));
    assert_eq!(js.consumidores()[0].ultimo_confirmado(), 0);
}

#[test]
fn consumidor_descarta_los_mensajes_ya_confirmados() {
    let mut hilo = ConcurrentConsumer::new(3, "s");
    assert_eq!(hilo.process_message("viejo", 2), None);
    assert!(!hilo.esperando());
}

#[test]
fn consumidor_da_por_entregado_tras_cinco_envios() {
    let mut hilo = ConcurrentConsumer::new(0, "s");
    hilo.process_message("m", 0).unwrap();
    for _ in 0..4 {
        assert!(hilo.process_messages_with_timeout().is_some());
    }
    assert_eq!(hilo.process_messages_with_timeout(), None);
    assert!(!hilo.esperando());
}

#[test]
fn separa_los_consumidores_nombrados() {
    let todos = vec![
        PushConsumer::new("s1", "a", 0),
        PushConsumer::new("s2", "b", 1),
        PushConsumer::new("s3", "c", 2),
    ];
    let (nombrados, resto) = separate_consumers(todos, vec!["c".to_string(), "a".to_string()]);
    let n: Vec<String> = nombrados.iter().map(|c| c.nombre().clone()).collect();
    let r: Vec<String> = resto.iter().map(|c| c.nombre().clone()).collect();
    assert_eq!(n, vec!["a".to_string(), "c".to_string()]);
    assert_eq!(r, vec!["b".to_string()]);
}

#[test]
fn lee_las_lineas_de_consumidores_y_de_datos() {
    assert_eq!(
        parse_consumers_data("consumer1,subject1,2").unwrap(),
        ("consumer1".to_string(), "subject1".to_string(), 2)
    );
    assert!(parse_consumers_data("consumer1,subject1").is_err());
    assert!(parse_consumers_data("consumer1,subject1,x").is_err());
    let (n, s, ms) = parse_js_data("js,sub,0 hola que tal,7 chau").unwrap();
    assert_eq!(n, "js");
    assert_eq!(s, "sub");
    assert_eq!(ms, vec![("hola que tal".to_string(), 0), ("chau".to_string(), 7)]);
    assert!(parse_js_data("js").is_err());
}

#[test]
fn actualizar_lineas_reemplaza_o_agrega() {
    let ls = lineas(&["a,1", "b,2"]);
    let r = update_csv_lines(ls, "b,3".to_string(), "b".to_string());
    assert_eq!(r, lineas(&["a,1", "b,3"]));
    let r2 = update_csv_lines(r.clone(), "c,9".to_string(), "c".to_string());
    assert_eq!(r2, lineas(&["a,1", "b,3", "c,9"]));
    let r3 = update_csv_lines(r2.clone(), "c,9".to_string(), "c".to_string());
    assert_eq!(r3, r2);
}

#[test]
fn la_confirmacion_de_un_consumidor_se_lee_de_vuelta() {
    let r = rutas(31);
    let mut js = crear(JSON, &r);
    let mut acciones = Vec::new();
    js.add_consumer(PushConsumer::new("subject1", "consumer1", 0), &mut acciones);
    let mut ejecutor = CommandExecutor::new(false, InMemoryUsersRepository::new(), vec![js]);
    let ack = Consumer::new("jetstream1", "consumer1").to_command("7");
    assert_eq!(ack, "$JS.ACK.jetstream1.consumer1.7\r\n");
    let mensaje = ack.trim_end_matches("\r\n").to_string();
    let mut acciones = Vec::new();
    let r = ejecutor.ejecutar_comando(mensaje, 1, &vec![1], &mut acciones).unwrap();
    assert!(r.is_ok());
    assert!(matches!(&acciones[0], Accion::AckConsumidor { stream, consumidor, id: 7 }
        if stream == "jetstream1" && consumidor == "consumer1"));
}
