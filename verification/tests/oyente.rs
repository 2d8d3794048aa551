use nats_icwt::cripto::encrypted_with_crlf;
use nats_icwt::errores::ErroresServer;
use nats_icwt::oyente::{escuchar_mensaje, termina_en_crlf, OyenteCliente, Salida};
use nats_icwt::ping::{Ciclo, Ping};

/// Lee un mensaje desde la posición dada y devuelve el texto, avanzando la posición.
fn leer(bytes: &[u8], pos: &mut usize) -> Result<String, ErroresServer> {
    let (texto, sigue) = escuchar_mensaje(bytes, *pos, 0)?;
    *pos = sigue;
    Ok(texto)
}

#[test]
pub fn escucha_hasta_el_primer_barra_r_barra_n() {
    let msg = encrypted_with_crlf("hola que tal?\r\n").unwrap();
    let resultado1 = leer(&msg, &mut 0).unwrap();

    assert_eq!("hola que tal?".to_string(), resultado1);
}

#[test]
pub fn escucha_hasta_el_primer_barra_r_barra_n_aun_habiendo_otro_despues() {
    let msg = encrypted_with_crlf("hola que tal?\r\n Bien y vos?\r\n").unwrap();
    let resultado1 = leer(&msg, &mut 0).unwrap();

    assert_eq!("hola que tal?".to_string(), resultado1);
}

#[test]
pub fn si_llamo_dos_veces_escucha_el_segundo_barra_r_barra_n() {
    let msg = encrypted_with_crlf("hola que tal?\r\n Bien y vos?\r\n").unwrap();
    let mut pos = 0;
    let _ = leer(&msg, &mut pos).unwrap();
    let resultado2 = leer(&msg, &mut pos).unwrap();

    assert_eq!(" Bien y vos?".to_string(), resultado2);
}

#[test]
pub fn si_solo_esta_barra_r_barra_n_lee_vacio() {
    let msg = encrypted_with_crlf("\r\n").unwrap();
    let resultado1 = leer(&msg, &mut 0).unwrap();

    assert_eq!("".to_string(), resultado1);
}

#[test]
pub fn leer_cuando_no_hay_nada_resulta_en_error() {
    let leer_bytes1 = "\r\n".as_bytes();
    let mut pos = 0;
    let _ = leer(leer_bytes1, &mut pos);
    let resultado2 = leer(leer_bytes1, &mut pos);

    assert!(matches!(resultado2, Err(ErroresServer::ClientDisconnected(_))));
}

#[test]
pub fn leer_mensaje_sin_barra_r_barra_n_causa_desconexion() {
    let leer_bytes1 = "hola como estas".as_bytes();
    let resultado1 = leer(leer_bytes1, &mut 0);
    let err = resultado1.unwrap_err();

    assert!(matches!(err, ErroresServer::ClientDisconnected(_)));
}

#[test]
pub fn leer_cuando_hay_ademas_de_barra_r_barra_n_un_barra_n_suelto_en_el_medio() {
    let msg = encrypted_with_crlf("hola como\n estas\r\n").unwrap();
    let resultado1 = leer(&msg, &mut 0).unwrap();

    assert_eq!("hola como\n estas", resultado1);
}

#[test]
pub fn leer_cuando_hay_ademas_de_barra_r_barra_n_mas_de_un_barra_n_suelto_en_el_medio() {
    let msg = encrypted_with_crlf("hola\n como\n estas\n ?\n Bien\n y\n vos?\r\n").unwrap();
    let resultado1 = leer(&msg, &mut 0).unwrap();

    assert_eq!("hola\n como\n estas\n ?\n Bien\n y\n vos?", resultado1);
}

#[test]
pub fn leer_cuando_hay_antes_del_barra_r_barra_n_un_barra_n() {
    let msg = encrypted_with_crlf("hola como estas\n\r\n").unwrap();
    let resultado1 = leer(&msg, &mut 0).unwrap();

    assert_eq!("hola como estas\n", resultado1);
}

#[test]
fn la_desconexion_lleva_el_id_del_cliente() {
    let r = escuchar_mensaje(b"sin fin", 0, 42);
    assert!(matches!(r, Err(ErroresServer::ClientDisconnected(id)) if id == "42"));
}

#[test]
fn una_linea_que_no_se_descifra_es_error_de_parser() {
    let r = escuchar_mensaje(b"abc\r\n", 0, 1);
    assert!(matches!(r, Err(ErroresServer::ParserError)));
}

#[test]
fn detecta_el_fin_de_linea() {
    assert!(termina_en_crlf(&b"ab\r\n".to_vec()));
    assert!(!termina_en_crlf(&b"ab\n\r".to_vec()));
    assert!(!termina_en_crlf(&b"\n".to_vec()));
}

#[test]
fn si_el_mensaje_es_pong_va_al_ping() {
    let mut oyente = OyenteCliente::new(3);
    assert!(matches!(oyente.texto_leido("PONG".to_string()), Salida::Pong));
}

#[test]
fn los_comandos_internos_no_pasan_el_filtro() {
    let mut oyente = OyenteCliente::new(3);
    assert!(matches!(oyente.texto_leido("SEND_PING".to_string()), Salida::Ninguna));
    assert!(matches!(oyente.texto_leido("SHUTDOWN".to_string()), Salida::Ninguna));
    assert!(matches!(oyente.texto_leido("   ".to_string()), Salida::Ninguna));
    assert!(matches!(oyente.texto_leido("SUB a 1".to_string()), Salida::AlEjecutor(m) if m == "SUB a 1"));
}

#[test]
fn el_pub_se_junta_con_su_carga() {
    let mut oyente = OyenteCliente::new(3);
    let cifrado = encrypted_with_crlf("PUB a 5\r\nhola\r\n").unwrap();
    let mut pos = 0;
    let primera = leer(&cifrado, &mut pos).unwrap();
    assert!(matches!(oyente.texto_leido(primera), Salida::Ninguna));
    let segunda = leer(&cifrado, &mut pos).unwrap();
    assert!(matches!(oyente.texto_leido(segunda), Salida::AlEjecutor(m) if m == "PUB a 5\r\nhola\r\n"));
}

#[test]
fn una_desconexion_cierra_y_avisa() {
    let mut oyente = OyenteCliente::new(3);
    let e = ErroresServer::ClientDisconnected("3".to_string());
    assert!(matches!(oyente.error_leido(&e, false), Salida::Cerrar { avisar: true }));
    assert!(matches!(oyente.error_leido(&e, true), Salida::Cerrar { avisar: false }));
    assert!(matches!(
        oyente.error_leido(&ErroresServer::ParserError, false),
        Salida::AlEjecutor(m) if m == "-ERR Parser error"
    ));
}

#[test]
pub fn manda_send_ping() {
    let waiting_time = 1;
    let time_between_pings = 3;
    let client_id = 0;
    let ping = Ping::new(waiting_time, time_between_pings, client_id);

    let send_ping = ping.comenzar_ciclo(false);

    assert!(matches!(send_ping, Ciclo::Enviar { mensaje, espera: 1 } if mensaje == "SEND_PING"));
}

#[test]
fn sin_pong_pide_cerrar_la_conexion() {
    let ping = Ping::new(1, 3, 7);
    assert_eq!(
        ping.sin_pong(false),
        vec!["-ERR Stale connection".to_string(), "SHUTDOWN".to_string()]
    );
    assert!(ping.sin_pong(true).is_empty());
    assert!(matches!(ping.comenzar_ciclo(true), Ciclo::Terminar));
    assert_eq!(ping.client_id(), 7);
    assert_eq!(ping.tiempo_entre_pings(), 3);
}
