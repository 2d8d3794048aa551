#![allow(dead_code)]
use std::collections::{HashMap, VecDeque};

use nats_icwt::acciones::Accion;
use nats_icwt::cripto::{decrypt_with_crlf, encrypted_with_crlf};
use nats_icwt::ejecutor::CommandExecutor;
use nats_icwt::errores::ErroresServer;
use nats_icwt::suscripcion::Suscription;
use nats_icwt::usuarios::{User, UsersRepository, UsuarioV};

struct MockUsersRepository {}

impl MockUsersRepository {
    fn new() -> Self {
        MockUsersRepository {}
    }
}

impl UsersRepository for MockUsersRepository {
    // Sólo lo usa la verificación de la biblioteca; nunca se ejecuta.
    fn encontrado(&self, _username: vstd::seq::Seq<char>, _password: vstd::seq::Seq<char>) -> Option<UsuarioV> {
        unreachable!()
    }

    fn find_user_by_username_and_password(&self, username: &str, password: &str) -> Option<User> {
        if username == "admin" && password == "admin" {
            Some(User::new(
                "admin".to_string(),
                "admin".to_string(),
                vec!["time.>".to_string()],
                vec!["otro".to_string()],
                "userMock_log.txt",
            ))
        } else {
            None
        }
    }
}

/// Los clientes conectados al comenzar una prueba.
struct Clientes {
    cantidad: usize,
}

fn before_each() -> Clientes {
    Clientes { cantidad: 1 }
}

/// Un ejecutor con clientes simulados: lo que se le escribe a cada cliente
/// pasa por el cifrado por líneas y se guarda descifrado, en orden.
struct Prueba {
    ejecutor: CommandExecutor<MockUsersRepository>,
    conectados: Vec<usize>,
    escrito: HashMap<usize, VecDeque<String>>,
    en_cola: VecDeque<(String, usize)>,
}

impl Prueba {
    fn new(clientes: Clientes, auth_required: bool) -> Self {
        let conectados: Vec<usize> = (1..clientes.cantidad + 1).collect();
        Prueba {
            ejecutor: CommandExecutor::new(auth_required, MockUsersRepository::new(), Vec::new()),
            conectados,
            escrito: HashMap::new(),
            en_cola: VecDeque::new(),
        }
    }

    fn escribir(&mut self, cliente: usize, msg: &str) {
        if self.conectados.contains(&cliente) {
            let cifrado = encrypted_with_crlf(msg).unwrap();
            let descifrado = decrypt_with_crlf(&cifrado).unwrap();
            self.escrito.entry(cliente).or_default().push_back(descifrado);
        }
    }

    fn ejecutar(&mut self, mensaje: String, cliente: usize) -> Result<(), ErroresServer> {
        let mut acciones = Vec::new();
        let r = self
            .ejecutor
            .ejecutar_comando(mensaje, cliente, &self.conectados, &mut acciones)
            .expect("el mensaje no hace fallar al ejecutor");
        for a in acciones {
            match a {
                Accion::Escribir { cliente, msg } => self.escribir(cliente, &msg),
                Accion::Entregar { cliente, msg, .. } => self.escribir(cliente, &msg),
                Accion::Cerrar { cliente } => {
                    self.escribir(cliente, "SHUTDOWN\r\n");
                    self.conectados.retain(|c| *c != cliente);
                }
                _ => {}
            }
        }
        r
    }

    fn leer(&mut self, cliente: usize) -> String {
        match self.escrito.get_mut(&cliente).and_then(|c| c.pop_front()) {
            Some(m) => m,
            None => "No recibio nada todavia".to_string(),
        }
    }

    fn encolar(&mut self, mensaje: (String, usize)) -> Result<(), ()> {
        self.en_cola.push_back(mensaje);
        Ok(())
    }

    fn connect(&mut self, json: &str, cliente: usize) -> Result<(), ErroresServer> {
        self.ejecutar(format!("CONNECT {}", json), cliente)
    }

    fn sub(&mut self, msg: &str, cliente: usize) -> Result<(), ErroresServer> {
        self.ejecutar(format!("SUB {}", msg), cliente)
    }

    fn unsub(&mut self, msg: &str, cliente: usize) -> Result<(), ErroresServer> {
        self.ejecutar(format!("UNSUB {}", msg), cliente)
    }

    fn publish(&mut self, msg: &str, cliente: usize) -> Result<(), ErroresServer> {
        self.ejecutar(format!("PUB {}", msg), cliente)
    }

    fn hpublish(&mut self, msg: &str, cliente: usize) -> Result<(), ErroresServer> {
        let r = self.ejecutar(format!("HPUB {}", msg), cliente);
        while self.ejecutor.hpub_en_curso() {
            match self.en_cola.pop_front() {
                Some((m, c)) => {
                    let _ = self.ejecutar(m, c);
                }
                None => break,
            }
        }
        r
    }

    fn suscriptions_len(&self) -> usize {
        self.ejecutor.suscriptions_len()
    }

    fn _get_subscriptions(&self, subject: &str) -> Result<Vec<Suscription>, ErroresServer> {
        self.ejecutor._get_subscriptions(subject)
    }
}

#[test]
fn test01_connect_sin_login_ok() {
    let setup = before_each();
    let mut command_executor = Prueba::new(setup, false);

    command_executor.connect(&"{}", 1).unwrap();

    assert_eq!("+OK\r\n", command_executor.leer(1));
}

#[test]
fn test02_connect_con_login_ok() {
    let setup = before_each();
    let mut command_executor = Prueba::new(setup, true);

    command_executor
        .connect(&"{\"user\":\"admin\",\"pass\":\"admin\"}", 1)
        .unwrap();

    assert_eq!("+OK\r\n", command_executor.leer(1));
}

#[test]
fn test03_connect_con_login_credenciales_invalidas_error() {
    let setup = before_each();
    let mut command_executor = Prueba::new(setup, true);

    let res = command_executor.connect(&"{\"user\":\"admin\",\"pass\":\"lapassestamal\"}", 1);

    assert!(matches!(
        res.unwrap_err(),
        ErroresServer::AuthorizationViolation
    ));
    assert_eq!(
        "-ERR Authorization Violation\r\n",
        command_executor.leer(1)
    );
}

#[test]
fn test04_suscribirse_sin_login_ok() {
    let setup = before_each();
    let mut command_executor = Prueba::new(setup, false);
    command_executor.connect(&"{}", 1).unwrap();
    command_executor.leer(1);

    command_executor.sub(&"time.* 1", 1).unwrap();

    assert_eq!("+OK\r\n", command_executor.leer(1));
}

#[test]
fn test05_suscribirse_con_login_ok() {
    let setup = before_each();
    let mut command_executor = Prueba::new(setup, true);
    command_executor
        .connect(&"{\"user\":\"admin\",\"pass\":\"admin\"}", 1)
        .unwrap();
    command_executor.leer(1);

    command_executor.sub(&"time.us 1", 1).unwrap();

    assert_eq!("+OK\r\n", command_executor.leer(1));
}

#[test]
fn test06_suscribirse_a_subject_no_autorizado() {
    let setup = before_each();
    let mut command_executor = Prueba::new(setup, true);
    command_executor
        .connect(&"{\"user\":\"admin\",\"pass\":\"admin\"}", 1)
        .unwrap();
    command_executor.leer(1);

    command_executor.sub(&"area.us 1", 1).unwrap();

    assert_eq!(
        "-ERR Permissions Violation for Subscription to area.us\r\n",
        command_executor.leer(1)
    );
}

#[test]
fn test07_publicar_sin_login_ok() {
    let setup = before_each();
    let mut command_executor = Prueba::new(setup, false);
    command_executor.connect(&"{}", 1).unwrap();
    command_executor.leer(1);

    command_executor
        .publish(&"area.us 17\r\nmensaje_de_prueba\r\n", 1)
        .unwrap();

    assert_eq!("+OK\r\n", command_executor.leer(1));
}

#[test]
fn test08_publicar_a_subject_no_autorizado() {
    let setup = before_each();
    let mut command_executor = Prueba::new(setup, true);
    command_executor
        .connect(&"{\"user\":\"admin\",\"pass\":\"admin\"}", 1)
        .unwrap();
    command_executor.leer(1);

    command_executor
        .publish(&"area.us 17\r\nmensaje_de_prueba\r\n", 1)
        .unwrap();

    assert_eq!(
        "-ERR Permissions Violation for Publish to area.us\r\n",
        command_executor.leer(1)
    );
}

#[test]
fn test09_publicar_con_login_ok() {
    let setup = before_each();
    let mut command_executor = Prueba::new(setup, true);
    command_executor
        .connect(&"{\"user\":\"admin\",\"pass\":\"admin\"}", 1)
        .unwrap();
    command_executor.leer(1);

    command_executor
        .publish(&"otro 17\r\nmensaje_de_prueba\r\n", 1)
        .unwrap();

    assert_eq!("+OK\r\n", command_executor.leer(1));
}
