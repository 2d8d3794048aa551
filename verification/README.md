# nats_icwt

Un servidor de mensajería al estilo NATS (con JetStream, usuarios con
permisos y cifrado AES de cada línea), su cliente, y los servicios que lo usan:
una central de cámaras y un sistema de monitoreo de incidentes.

## Organización

- `src/` es la biblioteca verificada con Verus. Cada función pública tiene su
  contrato (`requires`/`ensures`) sobre vistas matemáticas de los datos, y las
  propiedades que relacionan varias operaciones están como funciones de prueba
  `ley_*`.
  - `texto`, `subject`, `json`, `errores`: textos, subjects con comodines,
    lectura de JSON y los errores del protocolo.
  - `cripto`: cifrado AES-256 CBC de datos y de textos línea por línea.
  - `usuarios`, `suscripcion`, `logger`: usuarios y permisos, suscripciones y
    formato de los logs.
  - `ejecutor`: el ejecutor de comandos del servidor, como una función de
    estado y mensaje a nuevo estado y acciones (`acciones`).
  - `jetstream`, `carga`, `consumidor`: los streams, su persistencia en CSV y
    el reenvío de mensajes de cada consumidor hasta su confirmación.
  - `oyente`, `ping`, `servidor`: lo que se decide al leer de cada cliente, al
    mantener viva su conexión y al aceptar conexiones.
  - `cliente`: los mensajes del cliente y lo que hace con lo que recibe.
  - `camaras`: la central de cámaras (altas, bajas y el efecto de cada
    incidente sobre las cámaras de su área y sus lindantes).
  - `monitoreo`: los estados y errores de cámaras e incidentes, y cuándo los
    drones que llegan a un incidente lo activan.
  - `incidentes`, `interfaz`: el detector de incidentes por etiquetas y el
    estado de los formularios de la interfaz.
- `tests/` prueba la biblioteca con valores concretos.
- `app/` es el programa: sockets, hilos, canales, archivos y servicios
  externos, alrededor de la biblioteca; también el resto del sistema de
  monitoreo y las posiciones y distancias de la central, que trabajan con
  coordenadas de punto flotante. Se corre como
  `<programa> <puerto>` (servidor), `<programa> cliente <host> <puerto>`,
  `<programa> camaras` o `<programa> monitoreo`.
