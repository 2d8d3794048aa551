#![allow(dead_code)]
use std::collections::{HashMap, VecDeque};

use nats_icwt::acciones::Accion;
use nats_icwt::cripto::{decrypt_with_crlf, encrypted_with_crlf};
use nats_icwt::ejecutor::CommandExecutor;
use nats_icwt::errores::ErroresServer;
use nats_icwt::suscripcion::Suscription;
use nats_icwt::usuarios::{User, UsersRepository, UsuarioV};

struct MockUsersRepository {}

impl MockUsersRepository {
    fn new() -> Self {
        MockUsersRepository {}
    }
}

impl UsersRepository for MockUsersRepository {
    // Sólo lo usa la verificación de la biblioteca; nunca se ejecuta.
    fn encontrado(&self, _username: vstd::seq::Seq<char>, _password: vstd::seq::Seq<char>) -> Option<UsuarioV> {
        unreachable!()
    }

    fn find_user_by_username_and_password(&self, username: &str, password: &str) -> Option<User> {
        if username == "admin" && password == "admin" {
            Some(User::new(
                "admin".to_string(),
                "admin".to_string(),
                vec!["time.>".to_string()],
                vec!["otro".to_string(), "time.>".to_string()],
                "admin_log.txt",
            ))
        } else {
            None
        }
    }
}

/// Los clientes conectados al comenzar una prueba.
struct Clientes {
    cantidad: usize,
}

fn before_each(clients: usize) -> Clientes {
    Clientes { cantidad: clients }
}

/// Un ejecutor con clientes simulados: lo que se le escribe a cada cliente
/// pasa por el cifrado por líneas y se guarda descifrado, en orden.
struct Prueba {
    ejecutor: CommandExecutor<MockUsersRepository>,
    conectados: Vec<usize>,
    escrito: HashMap<usize, VecDeque<String>>,
    en_cola: VecDeque<(String, usize)>,
}

impl Prueba {
    fn new(clientes: Clientes, auth_required: bool) -> Self {
        let conectados: Vec<usize> = (1..clientes.cantidad + 1).collect();
        Prueba {
            ejecutor: CommandExecutor::new(auth_required, MockUsersRepository::new(), Vec::new()),
            conectados,
            escrito: HashMap::new(),
            en_cola: VecDeque::new(),
        }
    }

    fn escribir(&mut self, cliente: usize, msg: &str) {
        if self.conectados.contains(&cliente) {
            let cifrado = encrypted_with_crlf(msg).unwrap();
            let descifrado = decrypt_with_crlf(&cifrado).unwrap();
            self.escrito.entry(cliente).or_default().push_back(descifrado);
        }
    }

    fn ejecutar(&mut self, mensaje: String, cliente: usize) -> Result<(), ErroresServer> {
        let mut acciones = Vec::new();
        let r = self
            .ejecutor
            .ejecutar_comando(mensaje, cliente, &self.conectados, &mut acciones)
            .expect("el mensaje no hace fallar al ejecutor");
        for a in acciones {
            match a {
                Accion::Escribir { cliente, msg } => self.escribir(cliente, &msg),
                Accion::Entregar { cliente, msg, .. } => self.escribir(cliente, &msg),
                Accion::Cerrar { cliente } => {
                    self.escribir(cliente, "SHUTDOWN\r\n");
                    self.conectados.retain(|c| *c != cliente);
                }
                _ => {}
            }
        }
        r
    }

    fn leer(&mut self, cliente: usize) -> String {
        match self.escrito.get_mut(&cliente).and_then(|c| c.pop_front()) {
            Some(m) => m,
            None => "No recibio nada todavia".to_string(),
        }
    }

    fn encolar(&mut self, mensaje: (String, usize)) -> Result<(), ()> {
        self.en_cola.push_back(mensaje);
        Ok(())
    }

    fn connect(&mut self, json: &str, cliente: usize) -> Result<(), ErroresServer> {
        self.ejecutar(format!("CONNECT {}", json), cliente)
    }

    fn sub(&mut self, msg: &str, cliente: usize) -> Result<(), ErroresServer> {
        self.ejecutar(format!("SUB {}", msg), cliente)
    }

    fn unsub(&mut self, msg: &str, cliente: usize) -> Result<(), ErroresServer> {
        self.ejecutar(format!("UNSUB {}", msg), cliente)
    }

    fn publish(&mut self, msg: &str, cliente: usize) -> Result<(), ErroresServer> {
        self.ejecutar(format!("PUB {}", msg), cliente)
    }

    fn hpublish(&mut self, msg: &str, cliente: usize) -> Result<(), ErroresServer> {
        let r = self.ejecutar(format!("HPUB {}", msg), cliente);
        while self.ejecutor.hpub_en_curso() {
            match self.en_cola.pop_front() {
                Some((m, c)) => {
                    let _ = self.ejecutar(m, c);
                }
                None => break,
            }
        }
        r
    }

    fn suscriptions_len(&self) -> usize {
        self.ejecutor.suscriptions_len()
    }

    fn _get_subscriptions(&self, subject: &str) -> Result<Vec<Suscription>, ErroresServer> {
        self.ejecutor._get_subscriptions(subject)
    }
}

#[test]
fn test01_sub_lanza_error_cuando_hay_mas_de_tres_parametros_en_el_subject() {
    let setup = before_each(1);
    let mut command_executor = Prueba::new(setup, true);

    let client_id = 1;

    command_executor
        .connect(&"{\"user\":\"admin\",\"pass\":\"admin\"}", client_id)
        .unwrap();

    let msg = "time some_queue 12 aaaa";
    let _ = command_executor.sub(msg, client_id);

    let _ = command_executor.leer(client_id).as_str(); //saco el ok

    assert_eq!(
        command_executor.leer(client_id).as_str(),
        "-ERR Invalid subject, hay mas de 3 parametros en subject del SUB\r\n"
    )
}

#[test]
fn test02_sub_lanza_error_cuando_hay_menos_de_dos_parametros_en_el_subject() {
    let setup = before_each(1);
    let mut command_executor = Prueba::new(setup, true);

    let client_id = 1;

    command_executor
        .connect(&"{\"user\":\"admin\",\"pass\":\"admin\"}", client_id)
        .unwrap();

    let msg = "time";
    let _ = command_executor.sub(msg, client_id);

    let _ = command_executor.leer(client_id).as_str(); //saco el ok

    assert_eq!(
        command_executor.leer(client_id).as_str(),
        "-ERR Invalid subject, hay menos de 2 parametros en el subject del SUB\r\n"
    )
}

#[test]
fn test03_sub_envia_error_a_cliente_cuando_hay_token_vacio_en_el_subject() {
    let setup = before_each(1);
    let mut command_executor = Prueba::new(setup, true);

    let client_id = 1;

    command_executor
        .connect(&"{\"user\":\"admin\",\"pass\":\"admin\"}", client_id)
        .unwrap();

    let msg = "time..us 1";
    let _ = command_executor.sub(msg, client_id);

    let _ = command_executor.leer(client_id).as_str(); //saco el ok

    assert_eq!(
        command_executor.leer(client_id).as_str(),
        "-ERR Invalid subject, los tokens no pueden ser vacios\r\n"
    )
}

#[test]
fn test04_sub_envia_error_a_cliente_cuando_hay_token_no_alfanumerico_en_el_subject() {
    let setup = before_each(1);
    let mut command_executor = Prueba::new(setup, true);

    let client_id = 1;

    command_executor
        .connect(&"{\"user\":\"admin\",\"pass\":\"admin\"}", client_id)
        .unwrap();

    let msg1 = "time.?.us 1";
    let _ = command_executor.sub(msg1, client_id);

    let msg2 = "time.{}.us 2";
    let _ = command_executor.sub(msg2, client_id);

    let msg3 = "time.#.us 3";
    let _ = command_executor.sub(msg3, client_id);

    let msg4 = "time.'#][€½].us 4";
    let _ = command_executor.sub(msg4, client_id);

    let _ = command_executor.leer(client_id).as_str(); //saco el ok

    let afirmacion1 = command_executor.leer(client_id).as_str()
        == "-ERR Invalid subject, los tokens solo pueden contener caracteres alfanumericos\r\n";
    let afirmacion2 = command_executor.leer(client_id).as_str()
        == "-ERR Invalid subject, los tokens solo pueden contener caracteres alfanumericos\r\n";
    let afirmacion3 = command_executor.leer(client_id).as_str()
        == "-ERR Invalid subject, los tokens solo pueden contener caracteres alfanumericos\r\n";
    let afirmacion4 = command_executor.leer(client_id).as_str()
        == "-ERR Invalid subject, los tokens solo pueden contener caracteres alfanumericos\r\n";

    assert!(afirmacion1 && afirmacion2 && afirmacion3 && afirmacion4);
}

#[test]
fn test05_sub_envia_error_a_cliente_cuando_wildcard_mayor_no_es_el_ultimo_token_del_subject() {
    let setup = before_each(1);
    let mut command_executor = Prueba::new(setup, true);

    let client_id = 1;

    command_executor
        .connect(&"{\"user\":\"admin\",\"pass\":\"admin\"}", client_id)
        .unwrap();

    let msg = "time.>.us 1";
    let _ = command_executor.sub(msg, client_id);

    let _ = command_executor.leer(client_id).as_str(); //saco el ok

    assert_eq!(
        command_executor.leer(client_id).as_str(),
        "-ERR Invalid subject, el wildcard \'>\' solo puede ser el ultimo token\r\n"
    )
}

#[test]
fn test06_sub_envia_error_a_cliente_cuando_wildcard_asterisco_no_es_el_unico_en_el_token() {
    let setup = before_each(1);
    let mut command_executor = Prueba::new(setup, true);

    let client_id = 1;

    command_executor
        .connect(&"{\"user\":\"admin\",\"pass\":\"admin\"}", client_id)
        .unwrap();

    let msg = "time.*us 1";
    let _ = command_executor.sub(msg, client_id);

    let _ = command_executor.leer(client_id).as_str(); //saco el ok

    assert_eq!(command_executor.leer(client_id).as_str(), "-ERR Invalid subject, el wildcard \'*\' se usa solo, no puede ir acompañado, dentro del mismo token\r\n")
}

#[test]
fn test07_sub_funciona_sin_wildcards() {
    let setup = before_each(1);
    let mut command_executor = Prueba::new(setup, true);

    let client_id = 1;
    command_executor
        .connect(&"{\"user\":\"admin\",\"pass\":\"admin\"}", client_id)
        .unwrap();

    let msg = "time.us 1";
    let _ = command_executor.sub(msg, client_id);

    let _ = command_executor.leer(client_id).as_str(); //saco el ok

    let devuelve_ok =
        command_executor.leer(client_id).as_str() == "+OK\r\n";
    if let Ok(suscripciones) = command_executor._get_subscriptions("time.us") {
        let coincide_connection_id = client_id == suscripciones[0].connection_id;
        let coincide_sid = "1" == suscripciones[0].sid;
        assert!(devuelve_ok && coincide_connection_id && coincide_sid);
    } else {
        assert!(false);
    }
}

#[test]
fn test08_sub_funciona_con_wildcard_asterisco() {
    let setup = before_each(1);
    let mut command_executor = Prueba::new(setup, true);

    let client_id: usize = 1;
    command_executor
        .connect(&"{\"user\":\"admin\",\"pass\":\"admin\"}", 1)
        .unwrap();

    let msg = "time.*.us 1";
    let _ = command_executor.sub(msg, client_id);

    let _ = command_executor.leer(client_id).as_str(); //saco el ok

    let devuelve_ok =
        command_executor.leer(client_id).as_str() == "+OK\r\n";
    if let Ok(suscripciones) = command_executor._get_subscriptions("time.*.us") {
        let coincide_connection_id = client_id == suscripciones[0].connection_id;
        let coincide_sid = "1" == suscripciones[0].sid;
        assert!(devuelve_ok && coincide_connection_id && coincide_sid);
    } else {
        assert!(false);
    }
}

#[test]
fn test09_sub_funciona_con_wildcard_mayor() {
    let setup = before_each(1);
    let mut command_executor = Prueba::new(setup, true);

    let client_id = 1;

    command_executor
        .connect(&"{\"user\":\"admin\",\"pass\":\"admin\"}", client_id)
        .unwrap();

    let msg = "time.> 1";
    let _ = command_executor.sub(msg, client_id);

    let _ = command_executor.leer(client_id).as_str(); //saco el ok

    let devuelve_ok =
        command_executor.leer(client_id).as_str() == "+OK\r\n";
    if let Ok(suscripciones) = command_executor._get_subscriptions("time.>.us") {
        let coincide_connection_id = client_id == suscripciones[0].connection_id;
        let coincide_sid = "1" == suscripciones[0].sid;
        assert!(devuelve_ok && coincide_connection_id && coincide_sid);
    } else {
        assert!(false);
    }
}

#[test]
fn test10_publish_envia_error_a_cliente_cuando_hay_menos_de_2_parametros_en_el_subject() {
    let setup = before_each(1);
    let mut command_executor = Prueba::new(setup, true);

    let client_id = 1;

    command_executor
        .connect(&"{\"user\":\"admin\",\"pass\":\"admin\"}", client_id)
        .unwrap();

    let msg = "time.us";
    let _ = command_executor.publish(msg, 1);

    let _ = command_executor.leer(client_id).as_str(); //saco el ok

    assert_eq!(
        command_executor.leer(client_id).as_str(),
        "-ERR Invalid subject, El subject tiene menos de dos parametros ademas del PUB\r\n"
    )
}

#[test]
fn test11_publish_envia_error_a_cliente_cuando_hay_mas_de_3_parametros_en_el_subject() {
    let setup = before_each(1);
    let mut command_executor = Prueba::new(setup, true);

    let client_id = 1;

    command_executor
        .connect(&"{\"user\":\"admin\",\"pass\":\"admin\"}", client_id)
        .unwrap();

    let msg = "time.us reply.camara 0 \"algo mas\"";
    let _ = command_executor.publish(msg, client_id);

    let _ = command_executor.leer(client_id).as_str(); //saco el ok

    assert_eq!(
        command_executor.leer(client_id).as_str(),
        "-ERR Invalid subject, El subject tiene mas de tres parametros ademas del PUB\r\n"
    )
}

#[test]
fn test12_publish_envia_error_a_cliente_cuando_hay_mas_de_3_parametros_en_el_subject() {
    let setup = before_each(1);
    let mut command_executor = Prueba::new(setup, true);

    let client_id = 1;

    command_executor
        .connect(&"{\"user\":\"admin\",\"pass\":\"admin\"}", client_id)
        .unwrap();

    let msg_pub = "time.us reply.camara 0 \"algo mas\"";
    let _ = command_executor.publish(msg_pub, client_id);

    let _ = command_executor.leer(client_id).as_str(); //saco el ok

    assert_eq!(
        command_executor.leer(client_id).as_str(),
        "-ERR Invalid subject, El subject tiene mas de tres parametros ademas del PUB\r\n"
    )
}

#[test]
fn test13_publish_en_un_topic_sin_subs_no_manda_msg() {
    let setup = before_each(1);
    let mut command_executor = Prueba::new(setup, true);

    let client_id = 1;

    command_executor
        .connect(&"{\"user\":\"admin\",\"pass\":\"admin\"}", client_id)
        .unwrap();

    let msg_pub = "time reply.here 4\r\nhola\r\n";
    let _ = command_executor.publish(msg_pub, client_id);

    let _ = command_executor.leer(client_id).as_str(); //saco el ok
    let _ = command_executor.leer(client_id).as_str(); //saco el ok

    assert_eq!(
        command_executor.leer(client_id).as_str(),
        "No recibio nada todavia"
    )
}

#[test]
fn test14_publish_sin_payload_envia_msg_correcto() {
    let setup = before_each(1);
    let mut command_executor = Prueba::new(setup, true);

    let client_id = 1;

    command_executor
        .connect(&"{\"user\":\"admin\",\"pass\":\"admin\"}", client_id)
        .unwrap();

    let msg_sub = "time.us 1";
    let _ = command_executor.sub(msg_sub, 1);

    let msg_pub = "time.us 0\r\n\r\n";

    let _ = command_executor.publish(msg_pub, client_id);

    let _ = command_executor.leer(client_id).as_str(); //saco el ok
    let _ = command_executor.leer(client_id).as_str(); //saco el ok

    assert_eq!(
        command_executor.leer(client_id).as_str(),
        "MSG time.us 1 0\r\n\r\n"
    )
}

#[test]
fn test15_publish_sin_sub_en_su_topic_pero_si_en_otro_envia_msg_correcto() {
    let setup = before_each(1);
    let mut command_executor = Prueba::new(setup, true);

    let client_id = 1;

    command_executor
        .connect(&"{\"user\":\"admin\",\"pass\":\"admin\"}", client_id)
        .unwrap();

    let msg_sub = "time.ar 1";
    let _ = command_executor.sub(msg_sub, client_id);

    let msg_pub = "time.us 4\r\nhola\r\n";

    let _ = command_executor.publish(msg_pub, client_id);

    let _ = command_executor.leer(client_id).as_str(); //saco el ok, de coneccion establecida.
    let _ = command_executor.leer(client_id).as_str(); //saco el ok, del sub.
    let _ = command_executor.leer(client_id).as_str(); //saco el ok, del payload recibido.

    assert_eq!(
        command_executor.leer(client_id).as_str(),
        "No recibio nada todavia"
    )
}

#[test]
fn test16_publish_con_subscriptor_a_su_topic_envia_msg_correcto_siendo_el_mismo_cliente_el_que_hace_sub_y_pub(
) {
    let setup = before_each(1);
    let mut command_executor = Prueba::new(setup, true);

    let client_id = 1;

    command_executor
        .connect(&"{\"user\":\"admin\",\"pass\":\"admin\"}", client_id)
        .unwrap();

    let msg_sub = "time.ar 1";
    let _ = command_executor.sub(msg_sub, client_id);

    let msg_pub = "time.ar 4\r\nhola\r\n";

    let _ = command_executor.publish(msg_pub, client_id);

    let _ = command_executor.leer(client_id).as_str(); //saco el ok, de coneccion establecida.
    let _ = command_executor.leer(client_id).as_str(); //saco el ok, del sub.

    assert_eq!(
        command_executor.leer(client_id).as_str(),
        "MSG time.ar 1 4\r\nhola\r\n"
    )
}

#[test]
fn test17_publish_con_subscriptor_a_su_topic_envia_msg_correcto_siendo_distinto_el_cliente_que_hace_sub_y_pub(
) {
    let setup = before_each(2);
    let mut command_executor = Prueba::new(setup, true);

    let client_id1 = 1;
    let client_id2 = 2;

    command_executor
        .connect(&"{\"user\":\"admin\",\"pass\":\"admin\"}", client_id1)
        .unwrap();

    command_executor
        .connect(&"{\"user\":\"admin\",\"pass\":\"admin\"}", client_id2)
        .unwrap();

    let msg_sub = "time.ar 1";
    let _ = command_executor.sub(msg_sub, client_id2);

    let msg_pub = "time.ar 4\r\nhola\r\n";

    let _ = command_executor.publish(msg_pub, client_id1);

    let _ = command_executor.leer(client_id2).as_str(); //saco el ok, de coneccion establecida.
    let _ = command_executor.leer(client_id2).as_str(); //saco el ok, del sub.

    let afirmacion1 = command_executor.leer(client_id2).as_str()
        == "MSG time.ar 1 4\r\nhola\r\n";

    let _ = command_executor.leer(client_id1).as_str(); //saco el ok, de coneccion establecida.

    let afirmacion2 =
        command_executor.leer(client_id1).as_str() == "+OK\r\n";

    assert!(afirmacion1 && afirmacion2);
}

#[test]
fn test18_publish_con_varios_clientes_distintos_escuchando_en_el_mismo_topic() {
    let setup = before_each(4);
    let mut command_executor = Prueba::new(setup, true);

    let client_id1 = 1;
    let client_id2 = 2;
    let client_id3 = 3;
    let client_id4 = 4;

    command_executor
        .connect(&"{\"user\":\"admin\",\"pass\":\"admin\"}", client_id1)
        .unwrap();
    command_executor
        .connect(&"{\"user\":\"admin\",\"pass\":\"admin\"}", client_id2)
        .unwrap();
    command_executor
        .connect(&"{\"user\":\"admin\",\"pass\":\"admin\"}", client_id3)
        .unwrap();
    command_executor
        .connect(&"{\"user\":\"admin\",\"pass\":\"admin\"}", client_id4)
        .unwrap();

    let msg_sub = "time.ar 1";
    let _ = command_executor.sub(msg_sub, client_id2);
    let msg_sub = "time.ar 2";
    let _ = command_executor.sub(msg_sub, client_id3);
    let msg_sub = "time.ar 3";
    let _ = command_executor.sub(msg_sub, client_id4);

    let msg_pub = "time.ar 4\r\nhola\r\n";

    let _ = command_executor.publish(msg_pub, client_id1);

    let _ = command_executor.leer(client_id2).as_str(); //saco el ok, de coneccion establecida.
    let _ = command_executor.leer(client_id2).as_str(); //saco el ok, del sub.
    let _ = command_executor.leer(client_id3).as_str(); //saco el ok, de coneccion establecida.
    let _ = command_executor.leer(client_id3).as_str(); //saco el ok, del sub.
    let _ = command_executor.leer(client_id4).as_str(); //saco el ok, de coneccion establecida.
    let _ = command_executor.leer(client_id4).as_str(); //saco el ok, del sub.

    let afirmacion1 = command_executor.leer(client_id2).as_str()
        == "MSG time.ar 1 4\r\nhola\r\n";
    let afirmacion2 = command_executor.leer(client_id3).as_str()
        == "MSG time.ar 2 4\r\nhola\r\n";
    let afirmacion3 = command_executor.leer(client_id4).as_str()
        == "MSG time.ar 3 4\r\nhola\r\n";

    let _ = command_executor.leer(client_id1).as_str(); //saco el ok, de coneccion establecida.

    let afirmacion4 =
        command_executor.leer(client_id1).as_str() == "+OK\r\n";

    assert!(afirmacion1 && afirmacion2 && afirmacion3 && afirmacion4);
}

#[test]
fn test19_publish_con_un_sub_de_wildcard_mayor_funciona_correctamente() {
    let setup = before_each(2);
    let mut command_executor = Prueba::new(setup, true);

    let client_id1 = 1;
    let client_id2 = 2;

    command_executor
        .connect(&"{\"user\":\"admin\",\"pass\":\"admin\"}", client_id1)
        .unwrap();

    command_executor
        .connect(&"{\"user\":\"admin\",\"pass\":\"admin\"}", client_id2)
        .unwrap();

    let msg_sub = "time.ar.> 1";
    let _ = command_executor.sub(msg_sub, client_id2);

    let msg_pub1 = "time.ar.chaco 4\r\nhola\r\n";

    let _ = command_executor.publish(msg_pub1, client_id1);

    let _ = command_executor.leer(client_id2).as_str(); //saco el ok, de conexion establecida.
    let _ = command_executor.leer(client_id2).as_str(); //saco el ok, del sub.

    let afirmacion1 = command_executor.leer(client_id2).as_str()
        == "MSG time.ar.chaco 1 4\r\nhola\r\n";

    let _ = command_executor.leer(client_id1).as_str(); //saco el ok, de conexion establecida.

    let afirmacion2 =
        command_executor.leer(client_id1).as_str() == "+OK\r\n";

    let msg_pub2 = "time.ar.santa_cruz 4\r\nhola\r\n";
    let _ = command_executor.publish(msg_pub2, client_id1);

    let afirmacion3 = command_executor.leer(client_id2).as_str()
        == "MSG time.ar.santa_cruz 1 4\r\nhola\r\n";

    let afirmacion4 =
        command_executor.leer(client_id1).as_str() == "+OK\r\n";

    assert!(afirmacion1 && afirmacion2 && afirmacion3 && afirmacion4);
}

#[test]
fn test20_publish_con_sub_de_wildcard_asterisco_funciona_bien() {
    let setup = before_each(2);
    let mut command_executor = Prueba::new(setup, true);

    let client_id1 = 1;
    let client_id2 = 2;

    command_executor
        .connect(&"{\"user\":\"admin\",\"pass\":\"admin\"}", client_id1)
        .unwrap();

    command_executor
        .connect(&"{\"user\":\"admin\",\"pass\":\"admin\"}", client_id2)
        .unwrap();

    let msg_sub = "time.* 1";
    let _ = command_executor.sub(msg_sub, client_id2);

    let msg_pub1 = "time.ar 4\r\nhola\r\n";

    let _ = command_executor.publish(msg_pub1, client_id1);

    let _ = command_executor.leer(client_id2).as_str(); //saco el ok, de conexion establecida.
    let _ = command_executor.leer(client_id2).as_str(); //saco el ok, del sub.

    let afirmacion1 = command_executor.leer(client_id2).as_str()
        == "MSG time.ar 1 4\r\nhola\r\n";

    let _ = command_executor.leer(client_id1).as_str(); //saco el ok, de conexion establecida.

    let afirmacion2 =
        command_executor.leer(client_id1).as_str() == "+OK\r\n";

    let msg_pub2 = "time.ch 4\r\nhola\r\n";

    let _ = command_executor.publish(msg_pub2, client_id1);

    let afirmacion3 = command_executor.leer(client_id2).as_str()
        == "MSG time.ch 1 4\r\nhola\r\n";

    let afirmacion4 =
        command_executor.leer(client_id1).as_str() == "+OK\r\n";

    assert!(afirmacion1 && afirmacion2 && afirmacion3 && afirmacion4);
}

#[test]
fn test21_publish_con_sub_de_wildcard_asterisco_y_simbolo_mayor_funciona_bien() {
    let setup = before_each(2);
    let mut command_executor = Prueba::new(setup, true);

    let client_id1 = 1;
    let client_id2 = 2;

    command_executor
        .connect(&"{\"user\":\"admin\",\"pass\":\"admin\"}", client_id1)
        .unwrap();

    command_executor
        .connect(&"{\"user\":\"admin\",\"pass\":\"admin\"}", client_id2)
        .unwrap();

    let msg_sub = "time.*.> 1";
    let _ = command_executor.sub(msg_sub, client_id2);

    let msg_pub1 = "time.ar 14\r\nprimera prueba\r\n";

    let _ = command_executor.publish(msg_pub1, client_id1);

    let _ = command_executor.leer(client_id2).as_str(); //saco el ok, de conexion establecida.
    let _ = command_executor.leer(client_id2).as_str(); //saco el ok, del sub.

    let afirmacion1 = command_executor.leer(client_id2).as_str()
        == "MSG time.ar 1 14\r\nprimera prueba\r\n";

    let _ = command_executor.leer(client_id1).as_str(); //saco el ok, de conexion establecida.

    let afirmacion2 =
        command_executor.leer(client_id1).as_str() == "+OK\r\n";

    let msg_pub2 = "time.ch.santiago.cerrillos 14\r\nsegunda prueba\r\n";

    let _ = command_executor.publish(msg_pub2, client_id1);

    let afirmacion3 = command_executor.leer(client_id2).as_str()
        == "MSG time.ch.santiago.cerrillos 1 14\r\nsegunda prueba\r\n";

    let afirmacion4 =
        command_executor.leer(client_id1).as_str() == "+OK\r\n";

    assert!(afirmacion1 && afirmacion2 && afirmacion3 && afirmacion4);
}

#[test]
fn test22_unsub_sin_parametros_lanza_error() {
    let setup = before_each(2);
    let mut command_executor = Prueba::new(setup, true);

    let client_id1 = 1;
    let client_id2 = 2;

    command_executor
        .connect(&"{\"user\":\"admin\",\"pass\":\"admin\"}", client_id1)
        .unwrap();

    command_executor
        .connect(&"{\"user\":\"admin\",\"pass\":\"admin\"}", client_id2)
        .unwrap();

    let msg_sub = "time.us 1";
    let _ = command_executor.sub(msg_sub, client_id2);
    let msg_unsub = "";
    let _ = command_executor.unsub(&msg_unsub, client_id2).unwrap();

    let _ = command_executor.leer(client_id2).as_str();
    let _ = command_executor.leer(client_id2).as_str();

    assert_eq!(
        command_executor.leer(client_id2).as_str(),
        "-ERR Invalid subject, Formato incorrecto de comando de desuscripcion\r\n"
    )
}

#[test]
fn test23_unsub_con_mas_de_dos_parametros_lanza_error() {
    let setup = before_each(2);
    let mut command_executor = Prueba::new(setup, true);

    let client_id1 = 1;
    let client_id2 = 2;

    command_executor
        .connect(&"{\"user\":\"admin\",\"pass\":\"admin\"}", client_id1)
        .unwrap();

    command_executor
        .connect(&"{\"user\":\"admin\",\"pass\":\"admin\"}", client_id2)
        .unwrap();

    let msg_sub = "time.us 1";
    let _ = command_executor.sub(msg_sub, client_id2);
    let msg_unsub = "1 3 cualquiercosa";
    let _ = command_executor.unsub(&msg_unsub, client_id2).unwrap();

    let _ = command_executor.leer(client_id2).as_str();
    let _ = command_executor.leer(client_id2).as_str();

    assert_eq!(
        command_executor.leer(client_id2).as_str(),
        "-ERR Invalid subject, Formato incorrecto de comando de desuscripcion\r\n"
    )
}

#[test]
fn test24_unsub_con_mas_de_dos_parametros_lanza_error() {
    let setup = before_each(2);
    let mut command_executor = Prueba::new(setup, true);

    let client_id1 = 1;
    let client_id2 = 2;

    command_executor
        .connect(&"{\"user\":\"admin\",\"pass\":\"admin\"}", client_id1)
        .unwrap();

    command_executor
        .connect(&"{\"user\":\"admin\",\"pass\":\"admin\"}", client_id2)
        .unwrap();

    let msg_sub = "time.us 1";
    let _ = command_executor.sub(msg_sub, client_id2);
    let msg_unsub = "2 3"; //el primero es el SID y el segundo es el max_msgs
    let _ = command_executor.unsub(&msg_unsub, client_id2).unwrap();

    let _ = command_executor.leer(client_id2).as_str(); //saca ok de connect
    let _ = command_executor.leer(client_id2).as_str(); //saca ok del sub

    assert_eq!(
        command_executor.leer(client_id2).as_str(),
        "-ERR Invalid subject, no hay coincidencias para el SID recibido\r\n"
    )
}

#[test]
fn test25_unsub_se_hace_correctamente() {
    let setup = before_each(2);
    let mut command_executor = Prueba::new(setup, true);

    let client_id1 = 1;
    let client_id2 = 2;

    command_executor
        .connect(&"{\"user\":\"admin\",\"pass\":\"admin\"}", client_id1)
        .unwrap();

    command_executor
        .connect(&"{\"user\":\"admin\",\"pass\":\"admin\"}", client_id2)
        .unwrap();

    let msg_sub = "time.us 1";
    let _ = command_executor.sub(msg_sub, client_id2);

    let clientes_antes = command_executor.suscriptions_len();

    let msg_unsub = "1"; //el primero es el SID y el segundo es el max_msgs
    let _ = command_executor.unsub(&msg_unsub, client_id2).unwrap();

    let _ = command_executor.leer(client_id2).as_str(); //saca ok de connect
    let _ = command_executor.leer(client_id2).as_str(); //saca ok del sub

    let llego_ok_unsub =
        command_executor.leer(client_id2).as_str() == "+OK\r\n";

    let clientes_despues = command_executor.suscriptions_len();
    let cliente_quitado = clientes_antes == 1 && clientes_despues == 0;

    assert!(llego_ok_unsub && cliente_quitado)
}

#[test]
fn test26_unsub_cuando_hay_dos_sub_saca_al_correcto() {
    let setup = before_each(2);
    let mut command_executor = Prueba::new(setup, true);

    let client_id1 = 1;
    let client_id2 = 2;

    command_executor
        .connect(&"{\"user\":\"admin\",\"pass\":\"admin\"}", client_id1)
        .unwrap();
    command_executor
        .connect(&"{\"user\":\"admin\",\"pass\":\"admin\"}", client_id2)
        .unwrap();

    let msg_sub = "time.> 1";
    let _ = command_executor.sub(msg_sub, client_id2);
    let msg_sub = "time.*.capital 2";
    let _ = command_executor.sub(msg_sub, client_id2);
    let msg_sub = "time.> 3";
    let _ = command_executor.sub(msg_sub, client_id1);
    let msg_sub = "time.*.capital 4";
    let _ = command_executor.sub(msg_sub, client_id1);

    let clientes_antes = command_executor.suscriptions_len();

    let msg_unsub = "1"; //el primero es el SID y el segundo es el max_msgs
    let _ = command_executor.unsub(&msg_unsub, client_id2).unwrap();
    let msg_unsub = "2"; //el primero es el SID y el segundo es el max_msgs
    let _ = command_executor.unsub(&msg_unsub, client_id2).unwrap();

    let _ = command_executor.leer(client_id2).as_str(); //saca ok de connect
    let _ = command_executor.leer(client_id2).as_str(); //saca ok del sub
    let _ = command_executor.leer(client_id2).as_str(); //saca ok del sub

    let llego_ok_unsub1 =
        command_executor.leer(client_id2).as_str() == "+OK\r\n";
    let llego_ok_unsub2 =
        command_executor.leer(client_id2).as_str() == "+OK\r\n";

    let clientes_despues = command_executor.suscriptions_len();
    let cliente_quitado = clientes_antes == 4 && clientes_despues == 2;

    let primera_sub_client1 = command_executor._get_subscriptions("time.>").unwrap();
    let segunda_sub_client1 = command_executor
        ._get_subscriptions("time.*.capital")
        .unwrap(); //ademas me da "time.>".

    let primera_sub_bien = primera_sub_client1.len() == 1
        && primera_sub_client1[0].connection_id == 1
        && primera_sub_client1[0].sid == "3".to_string();
    let segunda_sub_bien = segunda_sub_client1.len() == 2
        && segunda_sub_client1[1].connection_id == 1
        && segunda_sub_client1[1].sid == "4".to_string();

    assert!(
        llego_ok_unsub1
            && llego_ok_unsub2
            && cliente_quitado
            && primera_sub_bien
            && segunda_sub_bien
    );
}

#[test]
fn test27_unsub_de_muchos_sid_del_mismo_cliente_se_hace_correctamente() {
    let setup = before_each(2);
    let mut command_executor = Prueba::new(setup, true);

    let client_id1 = 1;
    let client_id2 = 2;

    command_executor
        .connect(&"{\"user\":\"admin\",\"pass\":\"admin\"}", client_id1)
        .unwrap();
    command_executor
        .connect(&"{\"user\":\"admin\",\"pass\":\"admin\"}", client_id2)
        .unwrap();

    let msg_sub = "time.us 1";
    let _ = command_executor.sub(msg_sub, client_id2);
    let msg_sub = "time.ca 2";
    let _ = command_executor.sub(msg_sub, client_id2);
    let msg_sub = "time.mx 3";
    let _ = command_executor.sub(msg_sub, client_id2);
    let msg_sub = "time.rd 4";
    let _ = command_executor.sub(msg_sub, client_id2);

    let clientes_antes = command_executor.suscriptions_len();

    let msg_unsub = "1"; //el primero es el SID y el segundo es el max_msgs
    let _ = command_executor.unsub(&msg_unsub, client_id2).unwrap();
    let msg_unsub = "2"; //el primero es el SID y el segundo es el max_msgs
    let _ = command_executor.unsub(&msg_unsub, client_id2).unwrap();
    let msg_unsub = "3"; //el primero es el SID y el segundo es el max_msgs
    let _ = command_executor.unsub(&msg_unsub, client_id2).unwrap();
    let msg_unsub = "4"; //el primero es el SID y el segundo es el max_msgs
    let _ = command_executor.unsub(&msg_unsub, client_id2).unwrap();

    let _ = command_executor.leer(client_id2).as_str(); //saca ok de connect
    let _ = command_executor.leer(client_id2).as_str(); //saca ok del sub
    let _ = command_executor.leer(client_id2).as_str(); //saca ok del sub
    let _ = command_executor.leer(client_id2).as_str(); //saca ok del sub
    let _ = command_executor.leer(client_id2).as_str(); //saca ok del sub

    let llego_ok_unsub1 =
        command_executor.leer(client_id2).as_str() == "+OK\r\n";
    let llego_ok_unsub2 =
        command_executor.leer(client_id2).as_str() == "+OK\r\n";
    let llego_ok_unsub3 =
        command_executor.leer(client_id2).as_str() == "+OK\r\n";
    let llego_ok_unsub4 =
        command_executor.leer(client_id2).as_str() == "+OK\r\n";

    let clientes_despues = command_executor.suscriptions_len();
    let cliente_quitado = clientes_antes == 4 && clientes_despues == 0;

    assert!(
        llego_ok_unsub1
            && llego_ok_unsub2
            && llego_ok_unsub3
            && llego_ok_unsub4
            && cliente_quitado
    )
}

#[test]
fn test28_unsub_de_muchos_sid_de_distintos_clientes_se_hace_correctamente() {
    let setup = before_each(5);
    let mut command_executor = Prueba::new(setup, true);

    let client_id1 = 1;
    let client_id2 = 2;
    let client_id3 = 3;
    let client_id4 = 4;
    let client_id5 = 5;

    command_executor
        .connect(&"{\"user\":\"admin\",\"pass\":\"admin\"}", client_id1)
        .unwrap();
    command_executor
        .connect(&"{\"user\":\"admin\",\"pass\":\"admin\"}", client_id2)
        .unwrap();
    command_executor
        .connect(&"{\"user\":\"admin\",\"pass\":\"admin\"}", client_id3)
        .unwrap();
    command_executor
        .connect(&"{\"user\":\"admin\",\"pass\":\"admin\"}", client_id4)
        .unwrap();
    command_executor
        .connect(&"{\"user\":\"admin\",\"pass\":\"admin\"}", client_id5)
        .unwrap();

    let msg_sub = "time.us 1";
    let _ = command_executor.sub(msg_sub, client_id2);
    let msg_sub = "time.ca 2";
    let _ = command_executor.sub(msg_sub, client_id3);
    let msg_sub = "time.mx 3";
    let _ = command_executor.sub(msg_sub, client_id4);
    let msg_sub = "time.rd 4";
    let _ = command_executor.sub(msg_sub, client_id5);

    let clientes_antes = command_executor.suscriptions_len();

    let msg_unsub = "1"; //el primero es el SID y el segundo es el max_msgs
    let _ = command_executor.unsub(&msg_unsub, client_id2).unwrap();
    let msg_unsub = "2"; //el primero es el SID y el segundo es el max_msgs
    let _ = command_executor.unsub(&msg_unsub, client_id3).unwrap();
    let msg_unsub = "3"; //el primero es el SID y el segundo es el max_msgs
    let _ = command_executor.unsub(&msg_unsub, client_id4).unwrap();
    let msg_unsub = "4"; //el primero es el SID y el segundo es el max_msgs
    let _ = command_executor.unsub(&msg_unsub, client_id5).unwrap();

    let _ = command_executor.leer(client_id2).as_str(); //saca ok de connect
    let _ = command_executor.leer(client_id2).as_str(); //saca ok del sub

    let _ = command_executor.leer(client_id3).as_str(); //saca ok de connect
    let _ = command_executor.leer(client_id3).as_str(); //saca ok del sub

    let _ = command_executor.leer(client_id4).as_str(); //saca ok de connect
    let _ = command_executor.leer(client_id4).as_str(); //saca ok del sub

    let _ = command_executor.leer(client_id5).as_str(); //saca ok de connect
    let _ = command_executor.leer(client_id5).as_str(); //saca ok del sub

    let llego_ok_unsub1 =
        command_executor.leer(client_id2).as_str() == "+OK\r\n";
    let llego_ok_unsub2 =
        command_executor.leer(client_id3).as_str() == "+OK\r\n";
    let llego_ok_unsub3 =
        command_executor.leer(client_id4).as_str() == "+OK\r\n";
    let llego_ok_unsub4 =
        command_executor.leer(client_id5).as_str() == "+OK\r\n";

    let clientes_despues = command_executor.suscriptions_len();
    let cliente_quitado = clientes_antes == 4 && clientes_despues == 0;

    assert!(
        llego_ok_unsub1
            && llego_ok_unsub2
            && llego_ok_unsub3
            && llego_ok_unsub4
            && cliente_quitado
    )
}

#[test]
fn test29_unsub_por_max_msg_se_hace_correctamente() {
    let setup = before_each(2);
    let mut command_executor = Prueba::new(setup, true);

    let client_id1 = 1;
    let client_id2 = 2;

    command_executor
        .connect(&"{\"user\":\"admin\",\"pass\":\"admin\"}", client_id1)
        .unwrap();

    command_executor
        .connect(&"{\"user\":\"admin\",\"pass\":\"admin\"}", client_id2)
        .unwrap();

    let msg_sub = "time.us 1";
    let _ = command_executor.sub(msg_sub, client_id2);

    let clientes_antes = command_executor.suscriptions_len();

    let msg_unsub = "1 2"; //el primero es el SID y el segundo es el max_msgs
    let _ = command_executor.unsub(&msg_unsub, client_id2).unwrap();

    let msg_pub = "time.us 4\r\nhola\r\n";
    let _ = command_executor.publish(&msg_pub, client_id1);
    let _ = command_executor.publish(&msg_pub, client_id1);

    let _ = command_executor.leer(client_id2).as_str(); //saca ok de connect
    let _ = command_executor.leer(client_id2).as_str(); //saca ok del sub
    let llego_ok_unsub =
        command_executor.leer(client_id2).as_str() == "+OK\r\n";

    let _ = command_executor.leer(client_id1).as_str(); //saca ok de connect
    let ok_pub1 =
        command_executor.leer(client_id1).as_str() == "+OK\r\n"; //saca ok del pub
    let ok_pub2 =
        command_executor.leer(client_id1).as_str() == "+OK\r\n"; //saca ok del pub

    let clientes_despues = command_executor.suscriptions_len();
    let cliente_quitado = clientes_antes == 1 && clientes_despues == 0;

    assert!(llego_ok_unsub && ok_pub1 && ok_pub2 && cliente_quitado)
}

#[test]
fn test30_unsub_de_muchos_sid_de_distintos_clientes_se_hace_correctamente() {
    let setup = before_each(4);
    let mut command_executor = Prueba::new(setup, true);

    let client_id1 = 1;
    let client_id2 = 2;
    let client_id3 = 3;
    let client_id4 = 4;

    command_executor
        .connect(&"{\"user\":\"admin\",\"pass\":\"admin\"}", client_id1)
        .unwrap();
    command_executor
        .connect(&"{\"user\":\"admin\",\"pass\":\"admin\"}", client_id2)
        .unwrap();
    command_executor
        .connect(&"{\"user\":\"admin\",\"pass\":\"admin\"}", client_id3)
        .unwrap();
    command_executor
        .connect(&"{\"user\":\"admin\",\"pass\":\"admin\"}", client_id4)
        .unwrap();

    let msg_sub = "time.us 1";
    let _ = command_executor.sub(msg_sub, client_id2);
    let msg_sub = "time.ca 2";
    let _ = command_executor.sub(msg_sub, client_id3);
    let msg_sub = "time.mx 3";
    let _ = command_executor.sub(msg_sub, client_id4);

    let clientes_antes = command_executor.suscriptions_len();

    let msg_unsub = "1 2"; //el primero es el SID y el segundo es el max_msgs
    let _ = command_executor.unsub(&msg_unsub, client_id2).unwrap();
    let msg_unsub = "2 2"; //el primero es el SID y el segundo es el max_msgs
    let _ = command_executor.unsub(&msg_unsub, client_id3).unwrap();
    let msg_unsub = "3 2"; //el primero es el SID y el segundo es el max_msgs
    let _ = command_executor.unsub(&msg_unsub, client_id4).unwrap();

    let msg_pub = "time.us 4\r\nhola\r\n";
    let _ = command_executor.publish(&msg_pub, client_id1);
    let _ = command_executor.publish(&msg_pub, client_id1);

    let msg_pub = "time.ca 4\r\nhola\r\n";
    let _ = command_executor.publish(&msg_pub, client_id1);
    let _ = command_executor.publish(&msg_pub, client_id1);

    let msg_pub = "time.mx 4\r\nhola\r\n";
    let _ = command_executor.publish(&msg_pub, client_id1);
    let _ = command_executor.publish(&msg_pub, client_id1);

    let _ = command_executor.leer(client_id2).as_str(); //saca ok de connect
    let _ = command_executor.leer(client_id2).as_str(); //saca ok del sub

    let _ = command_executor.leer(client_id3).as_str(); //saca ok de connect
    let _ = command_executor.leer(client_id3).as_str(); //saca ok del sub

    let _ = command_executor.leer(client_id4).as_str(); //saca ok de connect
    let _ = command_executor.leer(client_id4).as_str(); //saca ok del sub

    let llego_ok_unsub1 =
        command_executor.leer(client_id2).as_str() == "+OK\r\n";
    let llego_ok_unsub2 =
        command_executor.leer(client_id3).as_str() == "+OK\r\n";
    let llego_ok_unsub3 =
        command_executor.leer(client_id4).as_str() == "+OK\r\n";

    let clientes_despues = command_executor.suscriptions_len();
    let cliente_quitado = clientes_antes == 3 && clientes_despues == 0;

    assert!(llego_ok_unsub1 && llego_ok_unsub2 && llego_ok_unsub3 && cliente_quitado)
}

#[test]
fn test31_unsub_por_max_msg_quita_al_sub_correcto_sin_quitar_a_otros_subs() {
    let setup = before_each(2);
    let mut command_executor = Prueba::new(setup, true);

    let client_id1 = 1;
    let client_id2 = 2;

    command_executor
        .connect(&"{\"user\":\"admin\",\"pass\":\"admin\"}", client_id1)
        .unwrap();
    command_executor
        .connect(&"{\"user\":\"admin\",\"pass\":\"admin\"}", client_id2)
        .unwrap();

    let msg_sub = "time.> 1";
    let _ = command_executor.sub(msg_sub, client_id2);
    let msg_sub = "time.*.capital 2";
    let _ = command_executor.sub(msg_sub, client_id2);

    let clientes_antes = command_executor.suscriptions_len();

    let msg_unsub = "1 2"; //el primero es el SID y el segundo es el max_msgs
    let _ = command_executor.unsub(&msg_unsub, client_id2).unwrap();
    let msg_unsub = "2 2"; //el primero es el SID y el segundo es el max_msgs
    let _ = command_executor.unsub(&msg_unsub, client_id2).unwrap();

    let msg_pub = "time.us 4\r\nhola\r\n";
    let _ = command_executor.publish(&msg_pub, client_id1);
    let _ = command_executor.publish(&msg_pub, client_id1);

    let _ = command_executor.leer(client_id2).as_str(); //saca ok de connect
    let _ = command_executor.leer(client_id2).as_str(); //saca ok del sub
    let llego_ok_unsub =
        command_executor.leer(client_id2).as_str() == "+OK\r\n";

    let _ = command_executor.leer(client_id1).as_str(); //saca ok de connect
    let ok_pub1 =
        command_executor.leer(client_id1).as_str() == "+OK\r\n"; //saca ok del pub
    let ok_pub2 =
        command_executor.leer(client_id1).as_str() == "+OK\r\n"; //saca ok del pub

    let clientes_despues = command_executor.suscriptions_len();
    let cliente_quitado = clientes_antes == 2 && clientes_despues == 1;

    let primer_sub = command_executor
        ._get_subscriptions("time.*.capital")
        .unwrap();
    let primer_sub_esta_bien = primer_sub[0].sid == "2"
        && primer_sub[0].max_msgs.unwrap() == 2
        && primer_sub[0].connection_id == 2;

    assert!(llego_ok_unsub && ok_pub1 && ok_pub2 && cliente_quitado && primer_sub_esta_bien);
}

#[test]
fn test32_publish_despues_de_un_unsub_funciona_correctamente() {
    let setup = before_each(3);
    let mut command_executor = Prueba::new(setup, true);

    let client_id1 = 1;
    let client_id2 = 2;
    let client_id3 = 3;

    command_executor
        .connect(&"{\"user\":\"admin\",\"pass\":\"admin\"}", client_id1)
        .unwrap();
    command_executor
        .connect(&"{\"user\":\"admin\",\"pass\":\"admin\"}", client_id2)
        .unwrap();
    command_executor
        .connect(&"{\"user\":\"admin\",\"pass\":\"admin\"}", client_id3)
        .unwrap();

    let msg_sub = "time.> 1";
    let _ = command_executor.sub(msg_sub, client_id2);
    let msg_sub = "time.*.capital 2";
    let _ = command_executor.sub(msg_sub, client_id3);

    let clientes_antes = command_executor.suscriptions_len();

    let msg_unsub = "1"; //el primero es el SID y el segundo es el max_msgs
    let _ = command_executor.unsub(&msg_unsub, client_id2).unwrap();

    let msg_pub = "time.ar.capital reply.here 4\r\nhola\r\n";
    let _ = command_executor.publish(&msg_pub, client_id1);

    let _ = command_executor.leer(client_id2).as_str(); //saca ok de connect
    let _ = command_executor.leer(client_id2).as_str(); //saca ok del sub
    let llego_ok_unsub =
        command_executor.leer(client_id2).as_str() == "+OK\r\n";
    let no_llega_pub_client2 = command_executor.leer(client_id2)
        .as_str()
        == "No recibio nada todavia";

    let _ = command_executor.leer(client_id3).as_str(); //saca ok de connect
    let _ = command_executor.leer(client_id3).as_str(); //saca ok del sub
    let llego_pub_client3 = command_executor.leer(client_id3).as_str()
        == "MSG time.ar.capital 2 reply.here 4\r\nhola\r\n";

    let _ = command_executor.leer(client_id1).as_str(); //saca ok de connect
    let ok_pub1 =
        command_executor.leer(client_id1).as_str() == "+OK\r\n"; //saca ok del pub

    let clientes_despues = command_executor.suscriptions_len();
    let cliente_quitado = clientes_antes == 2 && clientes_despues == 1;

    let primer_sub = command_executor
        ._get_subscriptions("time.*.capital")
        .unwrap();
    let primer_sub_esta_bien = primer_sub[0].sid == "2" && primer_sub[0].connection_id == 3;

    assert!(
        llego_ok_unsub
            && ok_pub1
            && llego_pub_client3
            && no_llega_pub_client2
            && cliente_quitado
            && primer_sub_esta_bien
    );
}

#[test]
fn test33_hpublish_envia_error_a_cliente_cuando_hay_menos_de_3_parametros_en_el_subject() {
    let setup = before_each(1);
    let mut command_executor = Prueba::new(setup, true);

    let client_id = 1;

    command_executor
        .connect(&"{\"user\":\"admin\",\"pass\":\"admin\"}", client_id)
        .unwrap();

    let msg = "time.us 10"; //SOLO 2 PARAMETROS
    let _ = command_executor.hpublish(msg, 1);

    let _ = command_executor.leer(client_id).as_str(); //saco el ok
                                                                              //  println!("El mensaje: {}", command_executor.leer(client_id).as_str());
    assert_eq!(
        command_executor.leer(client_id).as_str(),
        "-ERR Invalid subject, argumentos de menos (menos de 3)\r\n"
    )
}

#[test]
fn test34_hpublish_envia_error_a_cliente_cuando_hay_mas_de_4_parametros_en_el_subject() {
    let setup = before_each(1);
    let mut command_executor = Prueba::new(setup, true);

    let client_id = 1;

    command_executor
        .connect(&"{\"user\":\"admin\",\"pass\":\"admin\"}", client_id)
        .unwrap();

    let msg = "time.us forecast 10 15 aaaa"; //MAS DE 4 PARAMETROS
    let _ = command_executor.hpublish(msg, 1);

    let _ = command_executor.leer(client_id).as_str(); //saco el ok
                                                                              //  println!("El mensaje: {}", command_executor.leer(client_id).as_str());
    assert_eq!(
        command_executor.leer(client_id).as_str(),
        "-ERR Invalid subject, argumentos de mas (mas de 4)\r\n"
    )
}

#[test]
fn test35_hpublish_con_reply_to_sin_headers_y_sin_payload_funciona() {
    let setup = before_each(2);
    let mut command_executor = Prueba::new(setup, true);

    let client_id1 = 1;
    let client_id2 = 2;

    command_executor
        .connect(&"{\"user\":\"admin\",\"pass\":\"admin\"}", client_id1)
        .unwrap();
    command_executor
        .connect(&"{\"user\":\"admin\",\"pass\":\"admin\"}", client_id2)
        .unwrap();

    let msg_sub = "time.us 1";
    let _ = command_executor.sub(msg_sub, client_id2);
    //println!("El mensaje: {}", command_executor.leer(client_id2).as_str());q
    let _ = command_executor.leer(client_id2).as_str(); //saco el ok
    let _ = command_executor.leer(client_id2).as_str(); //saco el ok

    let msg = "time.us forecast 0 0";
    let _ = command_executor.encolar(("".to_string(), client_id1));
    let _ = command_executor.encolar(("".to_string(), client_id1));
    let _ = command_executor.encolar(("".to_string(), client_id1));
    let _ = command_executor.hpublish(msg, client_id1);
    //println!("El mensaje: {}", command_executor.leer(client_id1).as_str());
    let _ = command_executor.leer(client_id1).as_str(); //saco el ok

    //println!("El mensaje: {}", command_executor.leer(client_id1).as_str());
    assert_eq!(
        command_executor.leer(client_id2).as_str(),
        "HMSG time.us 1 forecast 0 0\r\n\r\n\r\n\r\n"
    )
}

#[test]
fn test36_hpublish_sin_reply_to_sin_headers_y_sin_payload_funciona() {
    let setup = before_each(2);
    let mut command_executor = Prueba::new(setup, true);

    let client_id1 = 1;
    let client_id2 = 2;

    command_executor
        .connect(&"{\"user\":\"admin\",\"pass\":\"admin\"}", client_id1)
        .unwrap();
    command_executor
        .connect(&"{\"user\":\"admin\",\"pass\":\"admin\"}", client_id2)
        .unwrap();

    let msg_sub = "time.us 1";
    let _ = command_executor.sub(msg_sub, client_id2);
    //println!("El mensaje: {}", command_executor.leer(client_id2).as_str());
    let _ = command_executor.leer(client_id2).as_str(); //saco el ok
    let _ = command_executor.leer(client_id2).as_str(); //saco el ok

    let msg = "time.us 0 0";
    let _ = command_executor.encolar(("".to_string(), client_id1));
    let _ = command_executor.encolar(("".to_string(), client_id1));
    let _ = command_executor.encolar(("".to_string(), client_id1));
    let _ = command_executor.hpublish(msg, client_id1);
    //println!("El mensaje: {}", command_executor.leer(client_id1).as_str());
    let _ = command_executor.leer(client_id1).as_str(); //saco el ok

    //println!("El mensaje: {}", command_executor.leer(client_id1).as_str());
    assert_eq!(
        command_executor.leer(client_id2).as_str(),
        "HMSG time.us 1 0 0\r\n\r\n\r\n\r\n"
    )
}

#[test]
fn test37_hpublish_con_reply_to_con_headers_y_sin_payload_funciona() {
    let setup = before_each(2);
    let mut command_executor = Prueba::new(setup, true);

    let client_id1 = 1;
    let client_id2 = 2;

    command_executor
        .connect(&"{\"user\":\"admin\",\"pass\":\"admin\"}", client_id1)
        .unwrap();
    command_executor
        .connect(&"{\"user\":\"admin\",\"pass\":\"admin\"}", client_id2)
        .unwrap();

    let msg_sub = "time.us 1";
    let _ = command_executor.sub(msg_sub, client_id2);
    //println!("El mensaje: {}", command_executor.leer(client_id2).as_str());
    let _ = command_executor.leer(client_id2).as_str(); //saco el ok
    let _ = command_executor.leer(client_id2).as_str(); //saco el ok

    let msg = "time.us forecast 16 16";
    let _ = command_executor.encolar(("BSAS: LLUVIA".to_string(), client_id1));
    let _ = command_executor.encolar(("".to_string(), client_id1));
    let _ = command_executor.encolar(("".to_string(), client_id1));
    let _ = command_executor.hpublish(msg, client_id1);

    //println!("El mensaje: {}", command_executor.leer(client_id1).as_str());
    let _ = command_executor.leer(client_id1).as_str(); //saco el ok

    //println!("El mensaje: {}", command_executor.leer(client_id1).as_str());
    assert_eq!(
        command_executor.leer(client_id2).as_str(),
        "HMSG time.us 1 forecast 16 16\r\nBSAS: LLUVIA\r\n\r\n\r\n"
    )
}

#[test]
fn test38_hpublish_con_reply_to_con_headers_y_con_payload_funciona() {
    let setup = before_each(2);
    let mut command_executor = Prueba::new(setup, true);

    let client_id1 = 1;
    let client_id2 = 2;

    command_executor
        .connect(&"{\"user\":\"admin\",\"pass\":\"admin\"}", client_id1)
        .unwrap();
    command_executor
        .connect(&"{\"user\":\"admin\",\"pass\":\"admin\"}", client_id2)
        .unwrap();

    let msg_sub = "time.us 1";
    let _ = command_executor.sub(msg_sub, client_id2);
    //println!("El mensaje: {}", command_executor.leer(client_id2).as_str());
    let _ = command_executor.leer(client_id2).as_str(); //saco el ok
    let _ = command_executor.leer(client_id2).as_str(); //saco el ok

    let msg = "time.us forecast 17 35";
    let _ = command_executor.encolar(("BSAS: SOLEADO".to_string(), client_id1));
    let _ = command_executor.encolar(("".to_string(), client_id1));
    let _ = command_executor.encolar(("Al menos no llueve".to_string(), client_id1));
    let _ = command_executor.hpublish(msg, client_id1);

    //println!("El mensaje: {}", command_executor.leer(client_id1).as_str());
    let _ = command_executor.leer(client_id1).as_str(); //saco el ok

    //println!("El mensaje: {}", command_executor.leer(client_id1).as_str());
    assert_eq!(
        command_executor.leer(client_id2).as_str(),
        "HMSG time.us 1 forecast 17 35\r\nBSAS: SOLEADO\r\n\r\nAl menos no llueve\r\n"
    )
}

#[test]
fn test39_hpublish_sin_reply_to_sin_headers_y_con_payload_funciona() {
    let setup = before_each(2);
    let mut command_executor = Prueba::new(setup, true);

    let client_id1 = 1;
    let client_id2 = 2;

    command_executor
        .connect(&"{\"user\":\"admin\",\"pass\":\"admin\"}", client_id1)
        .unwrap();
    command_executor
        .connect(&"{\"user\":\"admin\",\"pass\":\"admin\"}", client_id2)
        .unwrap();

    let msg_sub = "time.us 1";
    let _ = command_executor.sub(msg_sub, client_id2);
    //println!("El mensaje: {}", command_executor.leer(client_id2).as_str());
    let _ = command_executor.leer(client_id2).as_str(); //saco el ok
    let _ = command_executor.leer(client_id2).as_str(); //saco el ok

    let msg = "time.us 0 24";
    let _ = command_executor.encolar(("".to_string(), client_id1));
    let _ = command_executor.encolar(("".to_string(), client_id1)); //Porque leemos hasta los "\r\n", este esta x el doble "\r\n" osea "\r\n\r\n".
    let _ = command_executor.encolar(("Espero que no llueva".to_string(), client_id1));
    let _ = command_executor.hpublish(msg, client_id1);

    //println!("El mensaje: {}", command_executor.leer(client_id1).as_str());
    let _ = command_executor.leer(client_id1).as_str(); //saco el ok

    //println!("El mensaje: {}", command_executor.leer(client_id1).as_str());
    assert_eq!(
        command_executor.leer(client_id2).as_str(),
        "HMSG time.us 1 0 24\r\n\r\n\r\nEspero que no llueva\r\n"
    )
}

#[test]
fn test40_hpublish_sin_reply_to_con_headers_y_con_payload_funciona() {
    let setup = before_each(2);
    let mut command_executor = Prueba::new(setup, true);

    let client_id1 = 1;
    let client_id2 = 2;

    command_executor
        .connect(&"{\"user\":\"admin\",\"pass\":\"admin\"}", client_id1)
        .unwrap();
    command_executor
        .connect(&"{\"user\":\"admin\",\"pass\":\"admin\"}", client_id2)
        .unwrap();

    let msg_sub = "time.us 1";
    let _ = command_executor.sub(msg_sub, client_id2);
    //println!("El mensaje: {}", command_executor.leer(client_id2).as_str());
    let _ = command_executor.leer(client_id2).as_str(); //saco el ok
    let _ = command_executor.leer(client_id2).as_str(); //saco el ok

    let msg = "time.us 19 39";
    let _ = command_executor.encolar(("Tiempo: Nublado".to_string(), client_id1));
    let _ = command_executor.encolar(("".to_string(), client_id1)); //Porque leemos hasta los "\r\n", este esta x el doble "\r\n" osea "\r\n\r\n".
    let _ = command_executor.encolar(("Espero que no llueva".to_string(), client_id1));
    let _ = command_executor.hpublish(msg, client_id1);

    //println!("El mensaje: {}", command_executor.leer(client_id1).as_str());
    let _ = command_executor.leer(client_id1).as_str(); //saco el ok

    //println!("El mensaje: {}", command_executor.leer(client_id1).as_str());
    assert_eq!(
        command_executor.leer(client_id2).as_str(),
        "HMSG time.us 1 19 39\r\nTiempo: Nublado\r\n\r\nEspero que no llueva\r\n"
    )
}

#[test]
fn test41_hpublish_sin_reply_to_con_headers_y_sin_payload_funciona() {
    let setup = before_each(2);
    let mut command_executor = Prueba::new(setup, true);

    let client_id1 = 1;
    let client_id2 = 2;

    command_executor
        .connect(&"{\"user\":\"admin\",\"pass\":\"admin\"}", client_id1)
        .unwrap();
    command_executor
        .connect(&"{\"user\":\"admin\",\"pass\":\"admin\"}", client_id2)
        .unwrap();

    let msg_sub = "time.us 1";
    let _ = command_executor.sub(msg_sub, client_id2);
    //println!("El mensaje: {}", command_executor.leer(client_id2).as_str());
    let _ = command_executor.leer(client_id2).as_str(); //saco el ok
    let _ = command_executor.leer(client_id2).as_str(); //saco el ok

    let msg = "time.us 19 19";
    let _ = command_executor.encolar(("Tiempo: Nublado".to_string(), client_id1));
    let _ = command_executor.encolar(("".to_string(), client_id1)); //Porque leemos hasta los "\r\n", este esta x el doble "\r\n" osea "\r\n\r\n".
    let _ = command_executor.encolar(("".to_string(), client_id1));
    let _ = command_executor.hpublish(msg, client_id1);

    //println!("El mensaje: {}", command_executor.leer(client_id1).as_str());
    let _ = command_executor.leer(client_id1).as_str(); //saco el ok

    //println!("El mensaje: {}", command_executor.leer(client_id1).as_str());
    assert_eq!(
        command_executor.leer(client_id2).as_str(),
        "HMSG time.us 1 19 19\r\nTiempo: Nublado\r\n\r\n\r\n"
    )
}

#[test]
fn test42_hpublish_con_reply_to_sin_headers_y_con_payload_funciona() {
    let setup = before_each(2);
    let mut command_executor = Prueba::new(setup, true);

    let client_id1 = 1;
    let client_id2 = 2;

    command_executor
        .connect(&"{\"user\":\"admin\",\"pass\":\"admin\"}", client_id1)
        .unwrap();
    command_executor
        .connect(&"{\"user\":\"admin\",\"pass\":\"admin\"}", client_id2)
        .unwrap();

    let msg_sub = "time.us 1";
    let _ = command_executor.sub(msg_sub, client_id2);
    //println!("El mensaje: {}", command_executor.leer(client_id2).as_str());
    let _ = command_executor.leer(client_id2).as_str(); //saco el ok
    let _ = command_executor.leer(client_id2).as_str(); //saco el ok

    let msg = "time.us forecast 0 24";
    let _ = command_executor.encolar(("".to_string(), client_id1));
    let _ = command_executor.encolar(("".to_string(), client_id1)); //Porque leemos hasta los "\r\n", este esta x el doble "\r\n" osea "\r\n\r\n".
    let _ = command_executor.encolar(("Espero que no llueva".to_string(), client_id1));
    let _ = command_executor.hpublish(msg, client_id1);

    //println!("El mensaje: {}", command_executor.leer(client_id1).as_str());
    let _ = command_executor.leer(client_id1).as_str(); //saco el ok

    //println!("El mensaje: {}", command_executor.leer(client_id1).as_str());
    assert_eq!(
        command_executor.leer(client_id2).as_str(),
        "HMSG time.us 1 forecast 0 24\r\n\r\n\r\nEspero que no llueva\r\n"
    )
}

#[test]
fn test43_hpublish_con_header_grande_funciona() {
    let setup = before_each(2);
    let mut command_executor = Prueba::new(setup, true);

    let client_id1 = 1;
    let client_id2 = 2;

    command_executor
        .connect(&"{\"user\":\"admin\",\"pass\":\"admin\"}", client_id1)
        .unwrap();
    command_executor
        .connect(&"{\"user\":\"admin\",\"pass\":\"admin\"}", client_id2)
        .unwrap();

    let msg_sub = "time.us 1";
    let _ = command_executor.sub(msg_sub, client_id2);
    //println!("El mensaje: {}", command_executor.leer(client_id2).as_str());
    let _ = command_executor.leer(client_id2).as_str(); //saco el ok
    let _ = command_executor.leer(client_id2).as_str(); //saco el ok

    let msg = "time.us forecast 89 111";
    let _ = command_executor.encolar(("Lunes: Soleado".to_string(), client_id1));
    let _ = command_executor.encolar(("Martes: Nublado".to_string(), client_id1));
    let _ = command_executor.encolar(("Miercoles: Soleado".to_string(), client_id1));
    let _ = command_executor.encolar(("Jueves: Nublado".to_string(), client_id1));
    let _ = command_executor.encolar(("Viernes: Lluvia".to_string(), client_id1));
    let _ = command_executor.encolar(("".to_string(), client_id1)); //Porque leemos hasta los "\r\n", este esta x el doble "\r\n" osea "\r\n\r\n".
    let _ = command_executor.encolar(("Espero que no llueva".to_string(), client_id1));
    let _ = command_executor.hpublish(msg, client_id1);

    //println!("El mensaje: {}", command_executor.leer(client_id1).as_str());
    let _ = command_executor.leer(client_id1).as_str(); //saco el ok

    //println!("El mensaje: {}", command_executor.leer(client_id1).as_str());
    assert_eq!(command_executor.leer(client_id2).as_str(), "HMSG time.us 1 forecast 89 111\r\nLunes: Soleado\r\nMartes: Nublado\r\nMiercoles: Soleado\r\nJueves: Nublado\r\nViernes: Lluvia\r\n\r\nEspero que no llueva\r\n")
}
