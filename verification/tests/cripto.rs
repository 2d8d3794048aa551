use nats_icwt::cripto::{decrypt, decrypt_with_crlf, encrypt, encrypted_with_crlf, CryptoError};

#[test]
fn test_encrypt_decrypt() {
    let data = b"Hello, world!";

    let encrypted_data = encrypt(data).unwrap();
    let decrypted_data = decrypt(&encrypted_data).unwrap();

    assert_eq!(data, &decrypted_data[..]);
}

#[test]
fn test_encrypt_decrypt_with_crlf() {
    let data = "Hello, world!\r\nThis is a test\r\n";

    let encrypted_data = encrypted_with_crlf(data).unwrap();
    let decrypted_data = decrypt_with_crlf(&encrypted_data).unwrap();

    assert_eq!(data, &decrypted_data);
}

#[test]
fn test_encrypt_decrypt_with_crlf_without_end_crlf() {
    let data = "Hello, world!\r\nThis is a test";

    let encrypted_data = encrypted_with_crlf(data).unwrap();
    let decrypted_data = decrypt_with_crlf(&encrypted_data).unwrap();

    assert_eq!(data, &decrypted_data);
}

#[test]
fn test_malformed_decrypt() {
    let data = b"Hello, world!";
    let mut encrypted_data = encrypt(data).unwrap();
    encrypted_data[0] = 0;

    let result = decrypt(&encrypted_data);

    assert!(result.is_err());
}

#[test]
fn test_malformed_decrypt_with_crlf() {
    let data = "Hello, world!\r\nThis is a test\r\n";
    let mut encrypted_data = encrypted_with_crlf(data).unwrap();
    encrypted_data[0] = 0;

    let result = decrypt_with_crlf(&encrypted_data);

    assert!(matches!(result, Err(CryptoError::DecryptionError)));
}

#[test]
fn cifrado_rellena_al_siguiente_bloque() {
    assert_eq!(encrypt(b"").unwrap().len(), 0);
    assert_eq!(encrypt(b"0123456789abcde").unwrap().len(), 16);
    assert_eq!(encrypt(b"0123456789abcdef").unwrap().len(), 32);
    assert_eq!(encrypt(&[7u8; 40]).unwrap().len(), 48);
}

#[test]
fn cifrado_no_devuelve_los_datos() {
    let data = b"0123456789abcdef";
    let cifrado = encrypt(data).unwrap();
    assert_ne!(&cifrado[..16], &data[..]);
}

#[test]
fn cifrado_por_lineas_separa_con_crlf() {
    let cifrado = encrypted_with_crlf("a\r\nb").unwrap();
    assert_eq!(cifrado.len(), 16 + 2 + 16);
    assert_eq!(&cifrado[16..18], b"\r\n");
    assert_eq!(decrypt(&cifrado[..16]).unwrap(), b"a".to_vec());
    assert_eq!(decrypt(&cifrado[18..]).unwrap(), b"b".to_vec());
}

#[test]
fn cifrado_por_lineas_deja_vacio_el_tramo_vacio_final() {
    let cifrado = encrypted_with_crlf("a\r\n").unwrap();
    assert_eq!(cifrado.len(), 16 + 2);
    assert_eq!(decrypt(&cifrado[18..]).unwrap(), Vec::<u8>::new());
}

#[test]
fn descifrar_por_lineas_vacio_es_vacio() {
    assert_eq!(decrypt_with_crlf(&[]).unwrap(), "");
}

#[test]
fn errores_de_cifrado_se_muestran() {
    assert_eq!(CryptoError::EncryptionError.to_string(), "Encryption error");
    assert_eq!(CryptoError::DecryptionError.to_string(), "Decryption error");
}

#[test]
fn un_tramo_cifrado_inseparable_no_vuelve() {
    let cifrado = encrypted_with_crlf("a\r\n259").unwrap();
    assert!(matches!(decrypt_with_crlf(&cifrado), Err(CryptoError::DecryptionError)));
    let otro = encrypted_with_crlf("a\r\n258").unwrap();
    assert_eq!(decrypt_with_crlf(&otro).unwrap(), "a\r\n258");
}

#[test]
fn un_relleno_imposible_es_un_error_y_no_un_panico() {
    let cifrado = encrypt(&[0x20u8; 16]).unwrap();
    assert_eq!(cifrado.len(), 32);
    assert!(decrypt(&cifrado[..16]).is_err());
    assert_eq!(decrypt(&cifrado).unwrap(), vec![0x20u8; 16]);
}

#[test]
fn un_largo_que_no_es_de_bloques_es_un_error() {
    let cifrado = encrypt(b"hola").unwrap();
    assert!(decrypt(&cifrado[..15]).is_err());
}
