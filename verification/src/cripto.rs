//! Cifrado AES-256 CBC con relleno PKCS de los mensajes del protocolo, línea
//! por línea: cada tramo entre `\r\n` se cifra por separado y los tramos
//! cifrados se vuelven a unir con `\r\n`.
use vstd::prelude::*;
use vstd::string::*;
use vstd::utf8::{encode_utf8, decode_utf8, valid_utf8, is_ascii_chars_encode_utf8, encode_scalar, char_is_scalar, char_u32_cast, has_width_1_encoding, has_width_2_encoding, has_width_3_encoding, leading_byte_width_1, encode_utf8_valid_utf8, encode_utf8_decode_utf8};
use crate::texto::{dividir_crlf, division_crlf_parcial};
use crypto::{aes, blockmodes, buffer};
use crypto::buffer::{ReadBuffer, WriteBuffer};
use crypto::symmetriccipher::SymmetricCipherError;

verus! {

/// El error de cifrado de `rust-crypto`.
#[verifier::external_type_specification]
#[verifier::external_body]
pub struct ExSymmetricCipherError(SymmetricCipherError);

/// Errores del cifrado por líneas.
#[derive(Debug)]
pub enum CryptoError {
    EncryptionError,
    DecryptionError,
}

impl CryptoError {
    /// El texto con que se muestra el error.
    pub fn to_string(&self) -> (r: String)
        ensures
            r@ == (match self {
                CryptoError::EncryptionError => "Encryption error"@,
                CryptoError::DecryptionError => "Decryption error"@,
            }),
    {
        match self {
            CryptoError::EncryptionError => String::from_str("Encryption error"),
            CryptoError::DecryptionError => String::from_str("Decryption error"),
        }
    }
}

/// El hash de bcrypt de cuyos bytes salen la clave y el vector de inicialización.
pub const BCRYPT_HASH: &'static str = "$2b$12$9XmsdBtXYrDfZjKpsIvfp.WTIAnU/05JQcogfvb5OhiLGxKQXLWE2";

/// El largo del cifrado de `n` bytes: cero si no hay datos; si no, los datos
/// rellenados al siguiente múltiplo de 16, con un bloque entero de relleno
/// cuando ya eran múltiplo.
pub open spec fn largo_relleno(n: nat) -> nat {
    if n == 0 {
        0
    } else {
        (n / 16 + 1) * 16
    }
}

/// El relleno PKCS que se agrega a `n` bytes antes de cifrarlos: tantos bytes
/// como faltan para el siguiente múltiplo de 16 (16 si ya lo eran), cada uno
/// con ese número; nada para datos vacíos.
pub open spec fn relleno_pkcs(n: nat) -> Seq<u8> {
    if n == 0 {
        Seq::empty()
    } else {
        Seq::new((16 - n % 16) as nat, |i: int| (16 - n % 16) as u8)
    }
}

/// Lo que da AES-256 CBC con relleno PKCS de `rust-crypto` al cifrar `datos`
/// con `clave` y `iv` (`None` si la biblioteca informa un error).
pub uninterp spec fn aes_cifrado(datos: Seq<u8>, clave: Seq<u8>, iv: Seq<u8>) -> Option<Seq<u8>>;

/// Lo que da AES-256 CBC con relleno PKCS de `rust-crypto` al descifrar `datos`
/// con `clave` y `iv` (`None` si la biblioteca informa un error).
pub uninterp spec fn aes_descifrado(datos: Seq<u8>, clave: Seq<u8>, iv: Seq<u8>) -> Option<Seq<u8>>;

/// Lo que da AES-256 CBC sin relleno de `rust-crypto` al descifrar `datos` con
/// `clave` y `iv`: los bloques descifrados, relleno incluido (`None` si la
/// biblioteca informa un error).
pub uninterp spec fn aes_descifrado_bloques(datos: Seq<u8>, clave: Seq<u8>, iv: Seq<u8>) -> Option<Seq<u8>>;

/// Cifra `datos` con `aes::cbc_encryptor` de `rust-crypto` (AES-256, CBC, relleno
/// PKCS) en una sola llamada, con un búfer de salida de `capacidad` bytes.
/// Se afirma: el cifrado no falla (el relleno PKCS completa siempre el último
/// bloque); el resultado es el nombrado `aes_cifrado`; su largo es el de
/// `largo_relleno` (la biblioteca no emite bloque alguno para datos vacíos);
/// descifrarlo sin relleno da los datos seguidos de su relleno PKCS, y
/// descifrarlo con relleno da los datos.
#[verifier::external_body]
fn aes_cbc_cifrar(datos: &[u8], clave: &[u8], iv: &[u8], capacidad: usize) -> (r: Result<
    Vec<u8>,
    SymmetricCipherError,
>)
    requires
        clave@.len() == 32,
        iv@.len() == 16,
        capacidad >= datos@.len() + 16,
    ensures
        r is Ok,
        r is Ok <==> aes_cifrado(datos@, clave@, iv@) is Some,
        r matches Ok(v) ==> v@ == aes_cifrado(datos@, clave@, iv@)->0,
        r matches Ok(v) ==> v@.len() == largo_relleno(datos@.len()),
        r matches Ok(v) ==> aes_descifrado_bloques(v@, clave@, iv@) == Some(datos@ + relleno_pkcs(datos@.len())),
        r matches Ok(v) ==> aes_descifrado(v@, clave@, iv@) == Some(datos@),
{
    let mut cifrador = aes::cbc_encryptor(aes::KeySize::KeySize256, clave, iv, blockmodes::PkcsPadding);
    let mut salida = vec![0u8; capacidad];
    let mut lectura = buffer::RefReadBuffer::new(datos);
    let mut escritura = buffer::RefWriteBuffer::new(&mut salida);
    cifrador.encrypt(&mut lectura, &mut escritura, true)?;
    let v = escritura.take_read_buffer().take_remaining().to_vec();
    Ok(v)
}

/// Descifra `datos` con `aes::cbc_decryptor` de `rust-crypto` (AES-256, CBC,
/// sin relleno) en una sola llamada, con un búfer de salida de `capacidad` bytes.
/// Se afirma: no falla si y sólo si el largo de los datos es múltiplo de 16
/// (si no, la biblioteca informa `InvalidLength`); el resultado es el nombrado
/// `aes_descifrado_bloques` y tiene el largo de los datos.
#[verifier::external_body]
fn aes_cbc_descifrar_bloques(datos: &[u8], clave: &[u8], iv: &[u8], capacidad: usize) -> (r: Result<
    Vec<u8>,
    SymmetricCipherError,
>)
    requires
        clave@.len() == 32,
        iv@.len() == 16,
        capacidad >= datos@.len() + 16,
    ensures
        r is Ok <==> datos@.len() % 16 == 0,
        r is Ok <==> aes_descifrado_bloques(datos@, clave@, iv@) is Some,
        r matches Ok(v) ==> v@ == aes_descifrado_bloques(datos@, clave@, iv@)->0,
        r matches Ok(v) ==> v@.len() == datos@.len(),
{
    let mut descifrador = aes::cbc_decryptor(aes::KeySize::KeySize256, clave, iv, blockmodes::NoPadding);
    let mut salida = vec![0u8; capacidad];
    let mut lectura = buffer::RefReadBuffer::new(datos);
    let mut escritura = buffer::RefWriteBuffer::new(&mut salida);
    descifrador.decrypt(&mut lectura, &mut escritura, true)?;
    let v = escritura.take_read_buffer().take_remaining().to_vec();
    Ok(v)
}

/// Descifra `datos` con `aes::cbc_decryptor` de `rust-crypto` (AES-256, CBC,
/// relleno PKCS) en una sola llamada, con un búfer de salida de `capacidad` bytes.
/// Se afirma: el resultado es el nombrado `aes_descifrado`. La biblioteca
/// toma el último byte descifrado como largo del relleno y, si pasa de 16 y
/// los 16 bytes del último bloque son iguales a él, entra en pánico al
/// recortar; `requires` deja fuera todo último byte mayor que 16.
#[verifier::external_body]
fn aes_cbc_descifrar(datos: &[u8], clave: &[u8], iv: &[u8], capacidad: usize) -> (r: Result<
    Vec<u8>,
    SymmetricCipherError,
>)
    requires
        clave@.len() == 32,
        iv@.len() == 16,
        capacidad >= datos@.len() + 16,
        aes_descifrado_bloques(datos@, clave@, iv@) matches Some(b) && (b.len() == 0 || b.last() <= 16),
    ensures
        r is Ok <==> aes_descifrado(datos@, clave@, iv@) is Some,
        r matches Ok(v) ==> v@ == aes_descifrado(datos@, clave@, iv@)->0,
{
    let mut descifrador = aes::cbc_decryptor(aes::KeySize::KeySize256, clave, iv, blockmodes::PkcsPadding);
    let mut salida = vec![0u8; capacidad];
    let mut lectura = buffer::RefReadBuffer::new(datos);
    let mut escritura = buffer::RefWriteBuffer::new(&mut salida);
    descifrador.decrypt(&mut lectura, &mut escritura, true)?;
    let v = escritura.take_read_buffer().take_remaining().to_vec();
    Ok(v)
}

/// El error `InvalidPadding` de `rust-crypto`.
#[verifier::external_body]
fn error_de_relleno() -> SymmetricCipherError {
    SymmetricCipherError::InvalidPadding
}

/// Convierte bytes en texto con `String::from_utf8`: sólo si son UTF-8 válido.
#[verifier::external_body]
fn texto_utf8(bytes: Vec<u8>) -> (r: Option<String>)
    ensures
        r is Some <==> valid_utf8(bytes@),
        r matches Some(s) ==> s@ == decode_utf8(bytes@),
{
    String::from_utf8(bytes).ok()
}

/// Los bytes de la clave: los 32 primeros del hash.
pub open spec fn clave_spec() -> Seq<u8> {
    encode_utf8(BCRYPT_HASH@).subrange(0, 32)
}

/// Los bytes del vector de inicialización: del 32 al 48 del hash.
pub open spec fn iv_spec() -> Seq<u8> {
    encode_utf8(BCRYPT_HASH@).subrange(32, 48)
}

/// El cifrado de `datos` con la clave y el vector del protocolo.
pub open spec fn cifrado(datos: Seq<u8>) -> Option<Seq<u8>> {
    aes_cifrado(datos, clave_spec(), iv_spec())
}

/// Los bloques descifrados, relleno incluido, de `datos` con la clave y el
/// vector del protocolo.
pub open spec fn bloques_descifrados(datos: Seq<u8>) -> Option<Seq<u8>> {
    aes_descifrado_bloques(datos, clave_spec(), iv_spec())
}

/// Un último byte descifrado que puede ser el largo de un relleno: a lo sumo 16.
pub open spec fn relleno_posible(b: Seq<u8>) -> bool {
    b.len() == 0 || b.last() <= 16
}

/// El descifrado de `datos` con la clave y el vector del protocolo: `None` si
/// su largo no es múltiplo de 16, si el último byte descifrado pasa de 16 o si
/// `rust-crypto` rechaza el relleno.
pub open spec fn descifrado(datos: Seq<u8>) -> Option<Seq<u8>> {
    match bloques_descifrados(datos) {
        Some(b) => if relleno_posible(b) {
            aes_descifrado(datos, clave_spec(), iv_spec())
        } else {
            None
        },
        None => None,
    }
}

/// Obtiene la clave y el vector de inicialización para cifrar y descifrar.
fn get_key_iv() -> (r: (Vec<u8>, Vec<u8>))
    ensures
        r.0@ == clave_spec(),
        r.1@ == iv_spec(),
        r.0@.len() == 32,
        r.1@.len() == 16,
{
    let b = BCRYPT_HASH.as_bytes();
    proof {
        reveal_strlit("$2b$12$9XmsdBtXYrDfZjKpsIvfp.WTIAnU/05JQcogfvb5OhiLGxKQXLWE2");
        is_ascii_chars_encode_utf8(BCRYPT_HASH@);
    }
    assert(b@.len() == 60);
    let mut clave: Vec<u8> = Vec::new();
    for i in 0..32
        invariant
            b@ == encode_utf8(BCRYPT_HASH@),
            b@.len() == 60,
            clave@ == b@.subrange(0, i as int),
    {
        clave.push(b[i]);
        assert(b@.subrange(0, i + 1) =~= b@.subrange(0, i as int).push(b@[i as int]));
    }
    let mut iv: Vec<u8> = Vec::new();
    for i in 32..48
        invariant
            b@ == encode_utf8(BCRYPT_HASH@),
            b@.len() == 60,
            iv@ == b@.subrange(32, i as int),
    {
        iv.push(b[i]);
        assert(b@.subrange(32, i + 1) =~= b@.subrange(32, i as int).push(b@[i as int]));
    }
    (clave, iv)
}

/// Cifra datos usando AES-256 CBC con relleno PKCS.
pub fn encrypt(data: &[u8]) -> (r: Result<Vec<u8>, SymmetricCipherError>)
    requires
        data@.len() + 16 <= usize::MAX,
    ensures
        r is Ok,
        cifrado(data@) is Some,
        r matches Ok(v) ==> v@ == cifrado(data@)->0,
        r matches Ok(v) ==> v@.len() == largo_relleno(data@.len()),
        r matches Ok(v) ==> descifrado(v@) == Some(data@),
{
    let (key, iv) = get_key_iv();
    let r = aes_cbc_cifrar(data, key.as_slice(), iv.as_slice(), data.len() + 16);
    proof {
        let v = r->Ok_0;
        let b = data@ + relleno_pkcs(data@.len());
        assert(bloques_descifrados(v@) == Some(b));
        if data@.len() > 0 {
            assert(b.last() == relleno_pkcs(data@.len()).last());
        } else {
            assert(b =~= Seq::<u8>::empty());
        }
        assert(relleno_posible(b));
    }
    r
}

/// Descifra datos cifrados con AES-256 CBC con relleno PKCS. Un último byte
/// descifrado mayor que 16 no puede ser el largo del relleno: es un error de
/// relleno.
pub fn decrypt(encrypted_data: &[u8]) -> (r: Result<Vec<u8>, SymmetricCipherError>)
    requires
        encrypted_data@.len() + 16 <= usize::MAX,
    ensures
        r is Ok <==> descifrado(encrypted_data@) is Some,
        r matches Ok(v) ==> v@ == descifrado(encrypted_data@)->0,
{
    let (key, iv) = get_key_iv();
    let bloques = aes_cbc_descifrar_bloques(encrypted_data, key.as_slice(), iv.as_slice(), encrypted_data.len() + 16);
    match bloques {
        Err(e) => Err(e),
        Ok(b) => {
            let n = b.len();
            if n > 0 && b[n - 1] > 16 {
                return Err(error_de_relleno());
            }
            aes_cbc_descifrar(encrypted_data, key.as_slice(), iv.as_slice(), encrypted_data.len() + 16)
        },
    }
}

/// El par de bytes `\r\n`.
pub open spec fn crlf_bytes() -> Seq<u8> {
    seq![13u8, 10u8]
}

/// El cifrado de cada parte, unidas con `\r\n`; `None` si alguna no se pudo cifrar.
pub open spec fn unir_cifrados(partes: Seq<Seq<u8>>) -> Option<Seq<u8>>
    decreases partes.len(),
{
    if partes.len() == 0 {
        Some(Seq::empty())
    } else {
        match (unir_cifrados(partes.drop_last()), cifrado(partes.last())) {
            (Some(a), Some(c)) => Some(
                if partes.len() == 1 {
                    c
                } else {
                    a + crlf_bytes() + c
                },
            ),
            _ => None,
        }
    }
}

/// El cifrado por líneas de un texto: cada tramo entre `\r\n` de sus bytes
/// UTF-8 se cifra por separado y los tramos cifrados se unen con `\r\n`.
pub open spec fn cifrado_crlf(msg: Seq<char>) -> Option<Seq<u8>> {
    unir_cifrados(dividir_crlf(encode_utf8(msg), 13u8, 10u8))
}

/// Cifra un texto usando AES-256 CBC con relleno PKCS, tramo por tramo entre `\r\n`.
pub fn encrypted_with_crlf(msg: &str) -> (r: Result<Vec<u8>, CryptoError>)
    requires
        encode_utf8(msg@).len() + 16 <= usize::MAX,
    ensures
        r is Ok,
        r is Ok <==> cifrado_crlf(msg@) is Some,
        r matches Ok(v) ==> v@ == cifrado_crlf(msg@)->0,
        r matches Err(e) ==> e is EncryptionError,
        separables(cifrados(dividir_crlf(encode_utf8(msg@), 13u8, 10u8))) ==> (r matches Ok(v) ==> descifrado_crlf(
            v@,
        ) == Some(msg@)),
{
    let bytes = msg.as_bytes();
    let ghost s = bytes@;
    assert(s == encode_utf8(msg@));
    let n = bytes.len();
    let mut buf: Vec<u8> = Vec::new();
    let mut actual: Vec<u8> = Vec::new();
    let mut primero = true;
    let mut fallo = false;
    let mut i: usize = 0;
    while i < n
        invariant
            n == s.len(),
            s == bytes@,
            s == encode_utf8(msg@),
            s.len() + 16 <= usize::MAX,
            i <= n,
            actual@ == division_crlf_parcial(s.take(i as int), 13u8, 10u8).1,
            actual@.len() <= i,
            primero == (division_crlf_parcial(s.take(i as int), 13u8, 10u8).0.len() == 0),
            !fallo,
            fallo <==> unir_cifrados(division_crlf_parcial(s.take(i as int), 13u8, 10u8).0) is None,
            !fallo ==> unir_cifrados(division_crlf_parcial(s.take(i as int), 13u8, 10u8).0) == Some(buf@),
            !fallo ==> ida_y_vuelta(division_crlf_parcial(s.take(i as int), 13u8, 10u8).0),
        decreases n - i,
    {
        let b = bytes[i];
        assert(s.take(i + 1).drop_last() =~= s.take(i as int));
        assert(s.take(i + 1).last() == b);
        let ghost ps = division_crlf_parcial(s.take(i as int), 13u8, 10u8).0;
        let k = actual.len();
        if b == 10 && k > 0 && actual[k - 1] == 13 {
            let ghost parte = actual@.drop_last();
            actual.pop();
            assert(actual@ =~= parte);
            assert(ps.push(parte).drop_last() =~= ps);
            assert(ps.push(parte).last() == parte);
            if !fallo {
                match encrypt(actual.as_slice()) {
                    Ok(mut c) => {
                        if !primero {
                            buf.push(13);
                            buf.push(10);
                        }
                        let ghost antes = buf@;
                        buf.append(&mut c);
                        proof {
                            if !primero {
                                assert(buf@ =~= unir_cifrados(ps)->0 + crlf_bytes() + cifrado(parte)->0);
                            }
                            assert(ida_y_vuelta_parte(parte));
                            assert forall|k: int| 0 <= k < ps.push(parte).len() implies ida_y_vuelta_parte(
                                #[trigger] ps.push(parte)[k],
                            ) by {
                                if k < ps.len() {
                                    assert(ps.push(parte)[k] == ps[k]);
                                }
                            }
                        }
                    }
                    Err(_) => {
                        fallo = true;
                    }
                }
            }
            actual = Vec::new();
            primero = false;
        } else {
            actual.push(b);
        }
        i = i + 1;
    }
    assert(s.take(n as int) =~= s);
    let ghost ps = division_crlf_parcial(s, 13u8, 10u8).0;
    assert(ps.push(actual@).drop_last() =~= ps);
    assert(ps.push(actual@).last() == actual@);
    if fallo {
        return Err(CryptoError::EncryptionError);
    }
    match encrypt(actual.as_slice()) {
        Ok(mut c) => {
            if !primero {
                buf.push(13);
                buf.push(10);
            }
            buf.append(&mut c);
            proof {
                if !primero {
                    assert(buf@ =~= unir_cifrados(ps)->0 + crlf_bytes() + cifrado(actual@)->0);
                }
                assert(ida_y_vuelta_parte(actual@));
                assert forall|k: int| 0 <= k < ps.push(actual@).len() implies ida_y_vuelta_parte(
                    #[trigger] ps.push(actual@)[k],
                ) by {
                    if k < ps.len() {
                        assert(ps.push(actual@)[k] == ps[k]);
                    }
                }
                assert(dividir_crlf(s, 13u8, 10u8) == ps.push(actual@));
                if separables(cifrados(dividir_crlf(encode_utf8(msg@), 13u8, 10u8))) {
                    lema_ida_y_vuelta_crlf(msg@);
                }
            }
            Ok(buf)
        }
        Err(_) => Err(CryptoError::EncryptionError),
    }
}

/// Estado del descifrado por líneas tras leer los bytes `s`: el texto descifrado
/// hasta ahí (`None` tras un error), el tramo cifrado en curso y el último byte
/// guardado en él. Un `\n` tras un `\r` cierra el tramo, que se descifra, se
/// interpreta como UTF-8 y se agrega seguido de `\r\n`; el último byte guardado
/// no se olvida al cerrar un tramo.
pub open spec fn descifrado_crlf_parcial(s: Seq<u8>) -> (Option<Seq<char>>, Seq<u8>, u8)
    decreases s.len(),
{
    if s.len() == 0 {
        (Some(Seq::empty()), Seq::empty(), 0u8)
    } else {
        let (res, tramo, ultimo) = descifrado_crlf_parcial(s.drop_last());
        let b = s.last();
        match res {
            None => (None, tramo, ultimo),
            Some(texto) => if ultimo == 13u8 && b == 10u8 {
                let t = if tramo.len() > 0 { tramo.drop_last() } else { tramo };
                match descifrado(t) {
                    Some(d) => if valid_utf8(d) {
                        (Some(texto + decode_utf8(d) + "\r\n"@), Seq::empty(), ultimo)
                    } else {
                        (None, Seq::empty(), ultimo)
                    },
                    None => (None, Seq::empty(), ultimo),
                }
            } else {
                (Some(texto), tramo.push(b), b)
            },
        }
    }
}

/// El descifrado por líneas de `msg`: lo de `descifrado_crlf_parcial` y, si
/// quedó un tramo en curso, su descifrado sin `\r\n` al final.
pub open spec fn descifrado_crlf(msg: Seq<u8>) -> Option<Seq<char>> {
    let (res, tramo, _u) = descifrado_crlf_parcial(msg);
    match res {
        None => None,
        Some(texto) => if tramo.len() == 0 {
            Some(texto)
        } else {
            match descifrado(tramo) {
                Some(d) => if valid_utf8(d) {
                    Some(texto + decode_utf8(d))
                } else {
                    None
                },
                None => None,
            }
        },
    }
}

/// Descifra un mensaje cifrado tramo por tramo, con los tramos separados por `\r\n`.
pub fn decrypt_with_crlf(msg: &[u8]) -> (r: Result<String, CryptoError>)
    requires
        msg@.len() + 16 <= usize::MAX,
    ensures
        r is Ok <==> descifrado_crlf(msg@) is Some,
        r matches Ok(t) ==> t@ == descifrado_crlf(msg@)->0,
        r matches Err(e) ==> e is DecryptionError,
{
    let mut result = String::new();
    let mut tramo: Vec<u8> = Vec::new();
    let mut ultimo: u8 = 0;
    let mut i: usize = 0;
    let n = msg.len();
    while i < n
        invariant
            n == msg@.len(),
            n + 16 <= usize::MAX,
            i <= n,
            descifrado_crlf_parcial(msg@.take(i as int)) == (
                Some(result@),
                tramo@,
                ultimo,
            ),
            tramo@.len() <= i,
        decreases n - i,
    {
        let b = msg[i];
        assert(msg@.take(i + 1).drop_last() =~= msg@.take(i as int));
        assert(msg@.take(i + 1).last() == b);
        i = i + 1;
        if ultimo == 13 && b == 10 {
            let ghost t0 = tramo@;
            tramo.pop();
            assert(tramo@ == (if t0.len() > 0 { t0.drop_last() } else { t0 }));
            let d = match decrypt(tramo.as_slice()) {
                Ok(d) => d,
                Err(_) => {
                    proof { lema_error_persiste(msg@, i as int); }
                    return Err(CryptoError::DecryptionError);
                }
            };
            let t = match texto_utf8(d) {
                Some(t) => t,
                None => {
                    proof { lema_error_persiste(msg@, i as int); }
                    return Err(CryptoError::DecryptionError);
                }
            };
            result.append(t.as_str());
            result.append("\r\n");
            tramo = Vec::new();
        } else {
            tramo.push(b);
            ultimo = b;
        }
    }
    assert(msg@.take(n as int) =~= msg@);
    if tramo.len() > 0 {
        let d = match decrypt(tramo.as_slice()) {
            Ok(d) => d,
            Err(_) => return Err(CryptoError::DecryptionError),
        };
        let t = match texto_utf8(d) {
            Some(t) => t,
            None => return Err(CryptoError::DecryptionError),
        };
        result.append(t.as_str());
    }
    Ok(result)
}

/// Tras un error, el descifrado por líneas sigue en error hasta el final.
proof fn lema_error_persiste(msg: Seq<u8>, i: int)
    requires
        0 <= i <= msg.len(),
        descifrado_crlf_parcial(msg.take(i)).0 is None,
    ensures
        descifrado_crlf(msg) is None,
    decreases msg.len() - i,
{
    if i == msg.len() {
        assert(msg.take(i) =~= msg);
    } else {
        assert(msg.take(i + 1).drop_last() =~= msg.take(i));
        lema_error_persiste(msg, i + 1);
    }
}

/// Los bytes UTF-8 de un carácter: `\n` y `\r` son un solo byte (10 y 13);
/// ningún otro carácter tiene un byte 10, y sólo `\r` termina en 13.
proof fn lema_bytes_escalar(c: char)
    ensures
        encode_scalar(c as u32).len() > 0,
        c == '\n' ==> encode_scalar(c as u32) == seq![10u8],
        c == '\r' ==> encode_scalar(c as u32) == seq![13u8],
        c != '\n' ==> forall|k: int| 0 <= k < encode_scalar(c as u32).len() ==> #[trigger] encode_scalar(c as u32)[k] != 10u8,
        (encode_scalar(c as u32).last() == 13u8) <==> c == '\r',
{
    char_is_scalar(c);
    let x = c as u32;
    assert('\n' as u32 == 10u32);
    assert('\r' as u32 == 13u32);
    if has_width_1_encoding(x) {
        let b = leading_byte_width_1(x);
        assert(x <= 0x7F ==> (x & 0x7F) as u8 == x as u8 && (x as u8) as u32 == x) by (bit_vector);
        assert(b as u32 == x);
        if b == 10u8 {
            char_u32_cast(c, x);
            char_u32_cast('\n', 10u32);
        }
        if b == 13u8 {
            char_u32_cast(c, x);
            char_u32_cast('\r', 13u32);
        }
    } else {
        assert(forall|y: u8| #![trigger (0x80u8 | y)] (0x80u8 | y) >= 0x80u8) by (bit_vector);
        assert(forall|y: u8| #![trigger (0xC0u8 | y)] (0xC0u8 | y) >= 0x80u8) by (bit_vector);
        assert(forall|y: u8| #![trigger (0xE0u8 | y)] (0xE0u8 | y) >= 0x80u8) by (bit_vector);
        assert(forall|y: u8| #![trigger (0xF0u8 | y)] (0xF0u8 | y) >= 0x80u8) by (bit_vector);
        let e = encode_scalar(x);
        assert forall|k: int| 0 <= k < e.len() implies e[k] >= 0x80u8 by {
            if has_width_2_encoding(x) {
                assert(e[0] == (0xC0u8 | ((x >> 6) & 0x1F) as u8));
                assert(e[1] == (0x80u8 | (x & 0x3F) as u8));
            } else if has_width_3_encoding(x) {
                assert(e[0] == (0xE0u8 | ((x >> 12) & 0x0F) as u8));
                assert(e[1] == (0x80u8 | ((x >> 6) & 0x3F) as u8));
                assert(e[2] == (0x80u8 | (x & 0x3F) as u8));
            } else {
                assert(e[0] == (0xF0u8 | ((x >> 18) & 0x7) as u8));
                assert(e[1] == (0x80u8 | ((x >> 12) & 0x3F) as u8));
                assert(e[2] == (0x80u8 | ((x >> 6) & 0x3F) as u8));
                assert(e[3] == (0x80u8 | (x & 0x3F) as u8));
            }
        }
        assert(e[e.len() - 1] >= 0x80u8);
    }
}

/// Codificar un texto con un carácter más al final agrega los bytes de ese carácter.
proof fn lema_codificar_push(s: Seq<char>, c: char)
    ensures
        encode_utf8(s.push(c)) == encode_utf8(s) + encode_scalar(c as u32),
    decreases s.len(),
{
    if s.len() == 0 {
        assert(s.push(c).drop_first() =~= Seq::<char>::empty());
        assert(encode_utf8(s.push(c)) =~= encode_scalar(c as u32) + encode_utf8(Seq::<char>::empty()));
        assert(encode_utf8(s) =~= Seq::<u8>::empty());
        assert(encode_utf8(s.push(c)) =~= encode_utf8(s) + encode_scalar(c as u32));
    } else {
        lema_codificar_push(s.drop_first(), c);
        assert(s.push(c).drop_first() =~= s.drop_first().push(c));
        assert(s.push(c)[0] == s[0]);
        assert(encode_utf8(s.push(c)) =~= encode_scalar(s[0] as u32) + encode_utf8(s.drop_first().push(c)));
        assert(encode_utf8(s) =~= encode_scalar(s[0] as u32) + encode_utf8(s.drop_first()));
        assert(encode_utf8(s.push(c)) =~= encode_utf8(s) + encode_scalar(c as u32));
    }
}

/// Los bytes de un texto terminan en 13 si y sólo si el texto termina en `\r`.
proof fn lema_termina_en_cr(a: Seq<char>)
    ensures
        (encode_utf8(a).len() > 0 && encode_utf8(a).last() == 13u8) <==> (a.len() > 0 && a.last() == '\r'),
{
    if a.len() > 0 {
        lema_codificar_push(a.drop_last(), a.last());
        assert(a.drop_last().push(a.last()) =~= a);
        lema_bytes_escalar(a.last());
        let e = encode_scalar(a.last() as u32);
        assert((encode_utf8(a.drop_last()) + e).last() == e.last());
    }
}

/// Agregar bytes sin `lf` sólo alarga la parte en curso.
proof fn lema_division_sin_lf<A>(b: Seq<A>, chunk: Seq<A>, cr: A, lf: A)
    requires
        forall|k: int| 0 <= k < chunk.len() ==> chunk[k] != lf,
    ensures
        division_crlf_parcial(b + chunk, cr, lf) == (division_crlf_parcial(b, cr, lf).0, division_crlf_parcial(
            b,
            cr,
            lf,
        ).1 + chunk),
    decreases chunk.len(),
{
    if chunk.len() == 0 {
        assert(b + chunk =~= b);
        assert(division_crlf_parcial(b, cr, lf).1 + chunk =~= division_crlf_parcial(b, cr, lf).1);
    } else {
        lema_division_sin_lf(b, chunk.drop_last(), cr, lf);
        assert((b + chunk).drop_last() =~= b + chunk.drop_last());
        assert((b + chunk).last() == chunk.last());
        assert(chunk.last() != lf);
        assert((division_crlf_parcial(b, cr, lf).1 + chunk.drop_last()).push(chunk.last()) =~= division_crlf_parcial(
            b,
            cr,
            lf,
        ).1 + chunk);
    }
}

/// Dividir por `\r\n` los bytes de un texto es codificar cada parte del texto dividido.
proof fn lema_division_codificada(s: Seq<char>)
    ensures
        division_crlf_parcial(encode_utf8(s), 13u8, 10u8) == (division_crlf_parcial(s, '\r', '\n').0.map_values(
            |p: Seq<char>| encode_utf8(p),
        ), encode_utf8(division_crlf_parcial(s, '\r', '\n').1)),
    decreases s.len(),
{
    if s.len() == 0 {
        assert(division_crlf_parcial(s, '\r', '\n').0.map_values(|p: Seq<char>| encode_utf8(p)) =~= Seq::empty());
    } else {
        let s0 = s.drop_last();
        let c = s.last();
        lema_division_codificada(s0);
        lema_codificar_push(s0, c);
        assert(s0.push(c) =~= s);
        lema_bytes_escalar(c);
        let (ps0, a0) = division_crlf_parcial(s0, '\r', '\n');
        let e = encode_scalar(c as u32);
        let bs0 = encode_utf8(s0);
        lema_termina_en_cr(a0);
        lema_codificar_push(a0, c);
        if c == '\n' {
            assert(bs0 + e =~= bs0.push(10u8));
            assert((bs0 + e).drop_last() =~= bs0);
            if a0.len() > 0 && a0.last() == '\r' {
                lema_codificar_push(a0.drop_last(), '\r');
                assert(a0.drop_last().push('\r') =~= a0);
                lema_bytes_escalar('\r');
                assert(encode_utf8(a0).drop_last() =~= encode_utf8(a0.drop_last()));
                assert(ps0.push(a0.drop_last()).map_values(|p: Seq<char>| encode_utf8(p)) =~= ps0.map_values(
                    |p: Seq<char>| encode_utf8(p),
                ).push(encode_utf8(a0.drop_last())));
            } else {
                assert(encode_utf8(a0).push(10u8) =~= encode_utf8(a0) + e);
            }
        } else {
            lema_division_sin_lf(bs0, e, 13u8, 10u8);
        }
    }
}

/// Las partes unidas con `\r\n`.
pub open spec fn unir_textos(ts: Seq<Seq<char>>) -> Seq<char>
    decreases ts.len(),
{
    if ts.len() == 0 {
        Seq::empty()
    } else if ts.len() == 1 {
        ts[0]
    } else {
        unir_textos(ts.drop_last()) + "\r\n"@ + ts.last()
    }
}

/// Unir con `\r\n` las partes de un texto dividido por `\r\n` da el texto.
proof fn lema_unir_division(s: Seq<char>)
    ensures
        unir_textos(dividir_crlf(s, '\r', '\n')) == s,
    decreases s.len(),
{
    reveal_strlit("\r\n");
    if s.len() > 0 {
        let s0 = s.drop_last();
        let c = s.last();
        lema_unir_division(s0);
        let (ps0, a0) = division_crlf_parcial(s0, '\r', '\n');
        assert(s0.push(c) =~= s);
        assert(ps0.push(a0).drop_last() =~= ps0);
        if c == '\n' && a0.len() > 0 && a0.last() == '\r' {
            let q = ps0.push(a0.drop_last());
            assert(q.push(Seq::<char>::empty()).drop_last() =~= q);
            assert(q.drop_last() =~= ps0);
            if ps0.len() == 0 {
                assert(s0 == a0);
            } else {
                assert(s0 == unir_textos(ps0) + "\r\n"@ + a0);
            }
            assert(a0.drop_last().push('\r') =~= a0);
            assert("\r\n"@ =~= seq!['\r', '\n']);
            assert(unir_textos(q.push(Seq::<char>::empty())) == unir_textos(q) + "\r\n"@ + Seq::<char>::empty());
            if ps0.len() == 0 {
                assert(unir_textos(q) == a0.drop_last());
                assert(s =~= a0.drop_last() + "\r\n"@);
            } else {
                assert(unir_textos(q) == unir_textos(ps0) + "\r\n"@ + a0.drop_last());
                assert(s =~= unir_textos(ps0) + "\r\n"@ + a0.drop_last() + "\r\n"@);
            }
            assert(unir_textos(q.push(Seq::<char>::empty())) =~= s);
        } else {
            let q = ps0.push(a0.push(c));
            assert(q.drop_last() =~= ps0);
            if ps0.len() == 0 {
                assert(s0 == a0);
            } else {
                assert(s0 == unir_textos(ps0) + "\r\n"@ + a0);
            }
            assert(unir_textos(q) =~= s);
        }
    }
}

/// Los bytes no tienen un 13 seguido de un 10.
pub open spec fn sin_crlf(s: Seq<u8>) -> bool {
    forall|k: int| 0 <= k < s.len() - 1 ==> !(#[trigger] s[k] == 13u8 && s[k + 1] == 10u8)
}

/// Los cifrados de las partes.
pub open spec fn cifrados(ps: Seq<Seq<u8>>) -> Seq<Seq<u8>> {
    ps.map_values(|p: Seq<u8>| cifrado(p)->0)
}

/// Los cifrados se pueden volver a separar: ninguno tiene un 13 seguido de un
/// 10 y ninguno, salvo el primero, empieza con 10.
pub open spec fn separables(cs: Seq<Seq<u8>>) -> bool {
    forall|i: int| 0 <= i < cs.len() ==> sin_crlf(#[trigger] cs[i]) && (i > 0 && cs[i].len() > 0 ==> cs[i][0] != 10u8)
}

/// La parte se puede cifrar, su cifrado tiene el largo del relleno y se descifra en la parte.
pub open spec fn ida_y_vuelta_parte(p: Seq<u8>) -> bool {
    cifrado(p) matches Some(c) && descifrado(c) == Some(p) && c.len() == largo_relleno(p.len())
}

/// Cada parte va y vuelve del cifrado.
pub open spec fn ida_y_vuelta(ps: Seq<Seq<u8>>) -> bool {
    forall|i: int| 0 <= i < ps.len() ==> ida_y_vuelta_parte(#[trigger] ps[i])
}

/// Las partes interpretadas como UTF-8.
pub open spec fn decodificadas(ps: Seq<Seq<u8>>) -> Seq<Seq<char>> {
    ps.map_values(|p: Seq<u8>| decode_utf8(p))
}

/// Leer bytes sin `\r\n` (que no empiezan con `\n` tras un `\r`) sólo los agrega al tramo en curso.
proof fn lema_empujar(s: Seq<u8>, chunk: Seq<u8>)
    requires
        descifrado_crlf_parcial(s).0 is Some,
        sin_crlf(chunk),
        chunk.len() > 0 && descifrado_crlf_parcial(s).2 == 13u8 ==> chunk[0] != 10u8,
    ensures
        descifrado_crlf_parcial(s + chunk) == (
            descifrado_crlf_parcial(s).0,
            descifrado_crlf_parcial(s).1 + chunk,
            if chunk.len() == 0 {
                descifrado_crlf_parcial(s).2
            } else {
                chunk.last()
            },
        ),
    decreases chunk.len(),
{
    if chunk.len() == 0 {
        assert(s + chunk =~= s);
        assert(descifrado_crlf_parcial(s).1 + chunk =~= descifrado_crlf_parcial(s).1);
    } else {
        let c0 = chunk.drop_last();
        assert(sin_crlf(c0)) by {
            assert forall|k: int| 0 <= k < c0.len() - 1 implies !(#[trigger] c0[k] == 13u8 && c0[k + 1] == 10u8) by {
                assert(c0[k] == chunk[k] && c0[k + 1] == chunk[k + 1]);
            }
        }
        if c0.len() > 0 {
            assert(c0[0] == chunk[0]);
        }
        lema_empujar(s, c0);
        assert((s + chunk).drop_last() =~= s + c0);
        assert((s + chunk).last() == chunk.last());
        if c0.len() > 0 {
            assert(c0.last() == chunk[chunk.len() - 2]);
            assert(!(chunk[chunk.len() - 2] == 13u8 && chunk[chunk.len() - 1] == 10u8));
        }
        assert((descifrado_crlf_parcial(s).1 + c0).push(chunk.last()) =~= descifrado_crlf_parcial(s).1 + chunk);
    }
}

/// Leer un cifrado seguido de `\r\n`, con el tramo vacío, agrega su descifrado y `\r\n`.
proof fn lema_parte(s: Seq<u8>, c: Seq<u8>, p: Seq<u8>)
    requires
        descifrado_crlf_parcial(s).0 is Some,
        descifrado_crlf_parcial(s).1 == Seq::<u8>::empty(),
        sin_crlf(c),
        c.len() > 0 && descifrado_crlf_parcial(s).2 == 13u8 ==> c[0] != 10u8,
        descifrado(c) == Some(p),
        valid_utf8(p),
    ensures
        descifrado_crlf_parcial(s + c + seq![13u8, 10u8]) == (
            Some(descifrado_crlf_parcial(s).0->0 + decode_utf8(p) + "\r\n"@),
            Seq::<u8>::empty(),
            13u8,
        ),
{
    lema_empujar(s, c);
    let t = descifrado_crlf_parcial(s).0->0;
    assert(Seq::<u8>::empty() + c =~= c);
    let u1 = descifrado_crlf_parcial(s + c).2;
    assert(descifrado_crlf_parcial(s + c) == (Some(t), c, u1));
    let y = (s + c).push(13u8);
    assert(y.drop_last() =~= s + c);
    assert(descifrado_crlf_parcial(y) == (Some(t), c.push(13u8), 13u8));
    let x = y.push(10u8);
    assert(x =~= s + c + seq![13u8, 10u8]);
    assert(x.drop_last() =~= y);
    assert(c.push(13u8).drop_last() =~= c);
    assert(descifrado_crlf_parcial(x) == (Some(t + decode_utf8(p) + "\r\n"@), Seq::<u8>::empty(), 13u8));
}

/// Leer los cifrados de las partes unidos con `\r\n`, y un `\r\n` más, da las
/// partes descifradas unidas con `\r\n` y un `\r\n` al final.
proof fn lema_prefijo(ps: Seq<Seq<u8>>)
    requires
        ps.len() >= 1,
        ida_y_vuelta(ps),
        separables(cifrados(ps)),
        forall|i: int| 0 <= i < ps.len() ==> valid_utf8(#[trigger] ps[i]),
    ensures
        unir_cifrados(ps) is Some,
        descifrado_crlf_parcial(unir_cifrados(ps)->0 + seq![13u8, 10u8]) == (
            Some(unir_textos(decodificadas(ps)) + "\r\n"@),
            Seq::<u8>::empty(),
            13u8,
        ),
    decreases ps.len(),
{
    let k = ps.len() - 1;
    assert(ida_y_vuelta_parte(ps[k]));
    assert(cifrado(ps[k]) is Some);
    let c = cifrado(ps[k])->0;
    assert(cifrados(ps)[k] == c);
    if ps.len() == 1 {
        assert(ps.drop_last() =~= Seq::<Seq<u8>>::empty());
        assert(unir_cifrados(ps) == Some(c));
        assert(descifrado_crlf_parcial(Seq::<u8>::empty()) == (Some(Seq::<char>::empty()), Seq::<u8>::empty(), 0u8));
        lema_parte(Seq::<u8>::empty(), c, ps[k]);
        assert(Seq::<u8>::empty() + c =~= c);
        assert(decodificadas(ps)[0] == decode_utf8(ps[0]));
        assert(Seq::<char>::empty() + decode_utf8(ps[0]) =~= decode_utf8(ps[0]));
    } else {
        let ps0 = ps.drop_last();
        assert(ida_y_vuelta(ps0)) by {
            assert forall|i: int| 0 <= i < ps0.len() implies ida_y_vuelta_parte(#[trigger] ps0[i]) by {
                assert(ps0[i] == ps[i]);
            }
        }
        assert(separables(cifrados(ps0))) by {
            assert forall|i: int| 0 <= i < cifrados(ps0).len() implies sin_crlf(#[trigger] cifrados(ps0)[i]) && (i > 0
                && cifrados(ps0)[i].len() > 0 ==> cifrados(ps0)[i][0] != 10u8) by {
                assert(cifrados(ps0)[i] == cifrados(ps)[i]);
            }
        }
        assert forall|i: int| 0 <= i < ps0.len() implies valid_utf8(#[trigger] ps0[i]) by {
            assert(ps0[i] == ps[i]);
        }
        lema_prefijo(ps0);
        let a = unir_cifrados(ps0)->0;
        assert(unir_cifrados(ps) == Some(a + seq![13u8, 10u8] + c));
        lema_parte(a + seq![13u8, 10u8], c, ps[k]);
        assert(decodificadas(ps).drop_last() =~= decodificadas(ps0));
        assert(decodificadas(ps).last() == decode_utf8(ps[k]));
    }
}

/// Un cifrado vacío viene de una parte vacía.
proof fn lema_cifrado_vacio(p: Seq<u8>, c: Seq<u8>)
    requires
        c.len() == largo_relleno(p.len()),
        c.len() == 0,
    ensures
        p.len() == 0,
        decode_utf8(p) == Seq::<char>::empty(),
{
    if p.len() > 0 {
        assert((p.len() / 16 + 1) * 16 >= 16) by (nonlinear_arith);
    }
}

/// Leer los cifrados de las partes unidos con `\r\n` da las partes descifradas unidas con `\r\n`.
proof fn lema_descifrar_partes(ps: Seq<Seq<u8>>)
    requires
        ps.len() >= 1,
        ida_y_vuelta(ps),
        separables(cifrados(ps)),
        forall|i: int| 0 <= i < ps.len() ==> valid_utf8(#[trigger] ps[i]),
    ensures
        unir_cifrados(ps) is Some,
        descifrado_crlf(unir_cifrados(ps)->0) == Some(unir_textos(decodificadas(ps))),
{
    let k = ps.len() - 1;
    assert(ida_y_vuelta_parte(ps[k]));
    assert(cifrado(ps[k]) is Some);
    let c = cifrado(ps[k])->0;
    assert(cifrados(ps)[k] == c);
    if c.len() == 0 {
        lema_cifrado_vacio(ps[k], c);
    }
    if ps.len() == 1 {
        assert(ps.drop_last() =~= Seq::<Seq<u8>>::empty());
        assert(ps.last() == ps[k]);
        assert(unir_cifrados(ps.drop_last()) == Some(Seq::<u8>::empty()));
        assert(unir_cifrados(ps) == Some(c));
        assert(descifrado_crlf_parcial(Seq::<u8>::empty()) == (Some(Seq::<char>::empty()), Seq::<u8>::empty(), 0u8));
        lema_empujar(Seq::<u8>::empty(), c);
        assert(Seq::<u8>::empty() + c =~= c);
        assert(Seq::<u8>::empty() + c =~= c);
        assert(decodificadas(ps)[0] == decode_utf8(ps[0]));
        assert(Seq::<char>::empty() + decode_utf8(ps[0]) =~= decode_utf8(ps[0]));
    } else {
        let ps0 = ps.drop_last();
        assert(ida_y_vuelta(ps0)) by {
            assert forall|i: int| 0 <= i < ps0.len() implies ida_y_vuelta_parte(#[trigger] ps0[i]) by {
                assert(ps0[i] == ps[i]);
            }
        }
        assert(separables(cifrados(ps0))) by {
            assert forall|i: int| 0 <= i < cifrados(ps0).len() implies sin_crlf(#[trigger] cifrados(ps0)[i]) && (i > 0
                && cifrados(ps0)[i].len() > 0 ==> cifrados(ps0)[i][0] != 10u8) by {
                assert(cifrados(ps0)[i] == cifrados(ps)[i]);
            }
        }
        assert forall|i: int| 0 <= i < ps0.len() implies valid_utf8(#[trigger] ps0[i]) by {
            assert(ps0[i] == ps[i]);
        }
        lema_prefijo(ps0);
        let a = unir_cifrados(ps0)->0;
        assert(unir_cifrados(ps) == Some(a + seq![13u8, 10u8] + c));
        lema_empujar(a + seq![13u8, 10u8], c);
        assert(decodificadas(ps).drop_last() =~= decodificadas(ps0));
        assert(decodificadas(ps).last() == decode_utf8(ps[k]));
        if c.len() == 0 {
            assert(unir_textos(decodificadas(ps0)) + "\r\n"@ + Seq::<char>::empty() =~= unir_textos(decodificadas(ps0)) + "\r\n"@);
        }
    }
}

/// Lo que se cifra por líneas se descifra por líneas en el mismo texto, si
/// cada tramo va y vuelve del cifrado y los tramos cifrados se pueden volver a separar.
proof fn lema_ida_y_vuelta_crlf(msg: Seq<char>)
    requires
        ida_y_vuelta(dividir_crlf(encode_utf8(msg), 13u8, 10u8)),
        separables(cifrados(dividir_crlf(encode_utf8(msg), 13u8, 10u8))),
    ensures
        cifrado_crlf(msg) is Some,
        descifrado_crlf(cifrado_crlf(msg)->0) == Some(msg),
{
    let ps = dividir_crlf(encode_utf8(msg), 13u8, 10u8);
    let qs = dividir_crlf(msg, '\r', '\n');
    lema_division_codificada(msg);
    let (qps, qa) = division_crlf_parcial(msg, '\r', '\n');
    assert(ps =~= qs.map_values(|q: Seq<char>| encode_utf8(q))) by {
        assert(qs == qps.push(qa));
        assert(qps.push(qa).map_values(|q: Seq<char>| encode_utf8(q)) =~= qps.map_values(|q: Seq<char>| encode_utf8(q)).push(
            encode_utf8(qa),
        ));
    }
    assert forall|i: int| 0 <= i < ps.len() implies valid_utf8(#[trigger] ps[i]) by {
        encode_utf8_valid_utf8(qs[i]);
    }
    lema_descifrar_partes(ps);
    assert(decodificadas(ps) =~= qs) by {
        assert forall|i: int| 0 <= i < qs.len() implies decodificadas(ps)[i] == qs[i] by {
            encode_utf8_decode_utf8(qs[i]);
        }
    }
    lema_unir_division(msg);
}

} // verus!
