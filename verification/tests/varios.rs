use nats_icwt::errores::ErroresServer;
use nats_icwt::ejecutor::separar_comando_y_resto_de_mensaje;
use nats_icwt::incidentes::{contar_coincidencias, es_incidente, etiquetas_de_lineas, etiquetas_de_nombres};
use nats_icwt::interfaz::{FormIncidencia, Login};
use nats_icwt::logger::{LogType, Logger};
use nats_icwt::monitoreo::{cambio_de_camara, resolviendo, CambioCamara, ErroresCentral, Estado, SistemaMonitoreoError};
use nats_icwt::servidor::Server;
use nats_icwt::subject::{subject_matches_token, validate_subject};
use nats_icwt::usuarios::{find_users, InMemoryUsersRepository, User, UserPermissions, UsersRepository};

fn textos(v: &[&str]) -> Vec<String> {
    v.iter().map(|s| s.to_string()).collect()
}

#[test]
fn el_repositorio_verifica_la_contrasena_con_bcrypt() {
    let repo = InMemoryUsersRepository::new();
    let b = repo.find_user_by_username_and_password("b", "prueba123").unwrap();
    assert_eq!(b.get_user(), "b");
    assert_eq!(b.get_log(), "b_log.txt");
    assert!(repo.find_user_by_username_and_password("b", "otra").is_none());
    assert!(repo.find_user_by_username_and_password("nadie", "prueba123").is_none());
}

#[test]
fn los_usuarios_conocidos_son_cinco() {
    let users = find_users();
    let nombres: Vec<&str> = users.iter().map(|u| u.get_user()).collect();
    assert_eq!(nombres, vec!["a", "b", "sismonitoreo", "centralcamaras", "dronuno"]);
    assert_eq!(users[0].get_subscribe(), textos(&["time", "time.us"]));
    assert_eq!(users[1].get_publish(), textos(&[">", "time.us"]));
}

#[test]
fn los_permisos_siguen_los_patrones() {
    let u = User::new("x".to_string(), "h".to_string(), textos(&["time.*"]), textos(&["otro"]), "x_log.txt");
    let p = UserPermissions::from(&u);
    assert!(p.can_subscribe("time.us"));
    assert!(!p.can_subscribe("time.us.east"));
    assert!(p.can_publish("otro"));
    assert!(!p.can_publish("time.us"));
}

#[test]
fn una_linea_de_log_lleva_marca_tipo_y_mensaje() {
    let logger = Logger::new("test_log.txt");
    assert_eq!(
        logger.linea(LogType::Error, "Error message", "[2024-01-01 00:00:00]"),
        "[2024-01-01 00:00:00] [ERROR] Error message\n"
    );
    let entrada = logger.entrada(LogType::Warn, "Warning message");
    assert!(entrada.starts_with('['));
    assert!(entrada.ends_with(" [WARN] Warning message\n"));
    assert!(logger.entrada(LogType::Info, "Info message").contains("[INFO] Info message"));
    assert!(logger.entrada(LogType::Debug, "Debug message").contains("[DEBUG] Debug message"));
}

#[test]
fn el_info_lleva_el_puerto() {
    let server = Server::new("127.0.0.1:4222");
    let info = server.info().unwrap();
    assert!(info.starts_with("INFO {\"server_id\":1"));
    assert!(info.contains("\"port\":\"4222\""));
    assert!(info.ends_with("\"proto\":\"1.2.0\"}\r\n"));
    let sin_puerto = Server::new("localhost");
    assert!(matches!(sin_puerto.info(), Err(ErroresServer::InternalError(m)) if m == "Puerto Invalido"));
}

#[test]
fn el_servidor_se_llena_a_las_quince_conexiones() {
    let mut server = Server::new("127.0.0.1:4222");
    assert_eq!(server.proximo_id(), 1);
    for _ in 0..14 {
        server.registrar_conexion();
    }
    assert!(!server.lleno());
    server.registrar_conexion();
    assert!(server.lleno());
    assert_eq!(server.proximo_id(), 16);
    assert_eq!(Server::rechazo(), "-ERR Maximum connections exceeded\r\n");
}

#[test]
fn los_comodines_de_subject() {
    assert!(subject_matches_token("a.*.c", "a.b.c"));
    assert!(!subject_matches_token("a.*.c", "a.b.d"));
    assert!(subject_matches_token(">", "cualquier.cosa"));
    assert!(subject_matches_token("a.>", "a.b.c"));
    assert!(subject_matches_token("time.us", "time.us"));
    assert!(!subject_matches_token("time.us", "time.eu"));
}

#[test]
fn validar_subjects() {
    assert!(validate_subject("a.b.c").is_ok());
    assert!(validate_subject("a.*.c").is_ok());
    assert!(validate_subject("a.>").is_ok());
    assert!(matches!(validate_subject("a.>.c"), Err(ErroresServer::InvalidSubject(_))));
    assert!(matches!(validate_subject("a.b*.c"), Err(ErroresServer::InvalidSubject(_))));
    assert!(matches!(validate_subject("time.a>.us"), Err(ErroresServer::InvalidSubject(_))));
    assert!(validate_subject("time.us.a>").is_ok());
}

#[test]
fn una_etiqueta_conocida_no_basta_para_un_incidente() {
    let etiquetas = etiquetas_de_nombres(&textos(&["fuego intenso", "calle"]));
    assert_eq!(etiquetas, textos(&["fuego", "intenso", "calle"]));
    let conocidas = etiquetas_de_lineas(&textos(&["  fuego ", "choque"]));
    assert_eq!(conocidas, textos(&["fuego", "choque"]));
    assert_eq!(contar_coincidencias(&etiquetas, &conocidas), 1);
    assert!(!es_incidente(&etiquetas, &conocidas));
    assert!(!es_incidente(&textos(&["rio", "agua"]), &conocidas));
}

#[test]
fn mas_de_tres_etiquetas_conocidas_son_un_incidente() {
    let conocidas = textos(&["fuego", "humo", "choque", "herido"]);
    assert!(!es_incidente(&textos(&["fuego", "humo", "choque", "calle"]), &conocidas));
    assert!(es_incidente(&textos(&["fuego", "humo", "choque", "herido"]), &conocidas));
}

#[test]
fn dos_drones_activan_un_incidente() {
    let mut drones = Vec::new();
    assert_eq!(resolviendo(&Estado::Pendiente, &mut drones, "d1"), None);
    assert_eq!(resolviendo(&Estado::Pendiente, &mut drones, "d1"), None);
    assert_eq!(drones, textos(&["d1"]));
    assert_eq!(resolviendo(&Estado::Pendiente, &mut drones, "d2"), None);
    assert_eq!(
        resolviendo(&Estado::Pendiente, &mut drones, "d3"),
        Some(("d1".to_string(), "d2".to_string()))
    );
    assert_eq!(resolviendo(&Estado::Cancelado, &mut drones, "d4"), None);
    assert_eq!(drones, textos(&["d1", "d2"]));
}

#[test]
fn los_textos_de_estados_y_errores() {
    assert_eq!(Estado::Pendiente.as_str(), "pendiente");
    assert_eq!(Estado::Activo.as_str(), "activo");
    assert_eq!(Estado::Cancelado.as_str(), "cancelado");
    assert_eq!(SistemaMonitoreoError::IdInvalido.to_string(), "El id es invalido");
    assert_eq!(ErroresCentral::InternalError("x".to_string()).to_string(), "Error interno: x");
    assert_eq!(
        ErroresCentral::NoSePudoBorrarLaCamara.to_string(),
        "El id pasado por parametro no le pertenece a ninguna camara"
    );
    assert_eq!(ErroresServer::StreamNotFound.to_string().is_empty(), false);
}

#[test]
fn el_login_recuerda_si_fallo() {
    let mut login = Login::default();
    login.resultado_inicio(false);
    assert!(login.show_incorrect);
    assert!(!login.login_successful);
    login.campo_editado();
    assert!(!login.show_incorrect);
    login.resultado_inicio(true);
    assert!(login.login_successful);
    let _ = FormIncidencia::default();
}

#[test]
fn el_comando_termina_en_espacio_o_tabulador() {
    assert_eq!(
        separar_comando_y_resto_de_mensaje("PING\tx".to_string()),
        ("PING".to_string(), "x".to_string())
    );
    assert_eq!(
        separar_comando_y_resto_de_mensaje("ñ x".to_string()),
        ("ñ".to_string(), "x".to_string())
    );
    assert_eq!(
        separar_comando_y_resto_de_mensaje("PUB a 2".to_string()),
        ("PUB".to_string(), "a 2".to_string())
    );
    assert_eq!(
        separar_comando_y_resto_de_mensaje("PING".to_string()),
        ("PING".to_string(), String::new())
    );
}

#[test]
fn cambios_de_camaras_publicadas() {
    assert_eq!(cambio_de_camara("ahorro", false), CambioCamara::Agregar);
    assert_eq!(cambio_de_camara("ahorro", true), CambioCamara::PonerAhorro);
    assert_eq!(cambio_de_camara("grabando", true), CambioCamara::PonerGrabando);
    assert_eq!(cambio_de_camara("grabando", false), CambioCamara::Nada);
    assert_eq!(cambio_de_camara("eliminado", true), CambioCamara::Quitar);
    assert_eq!(cambio_de_camara("otro", true), CambioCamara::Nada);
}
