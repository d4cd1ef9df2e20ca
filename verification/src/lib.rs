//! Motor del juego de cartas chinchón: modelo de cartas, buscador de juegos
//! (escaleras y grupos) y máquina de estados de una partida por turnos.

pub mod cartas;
pub mod conteo;
pub mod estadisticas;
pub mod juegos;
pub mod mensajes;
pub mod partida;

pub use cartas::{Carta, CartaFromStrErr, Palo, PaloFromStrError};
pub use estadisticas::EstadisticasJugador;
pub use juegos::formar_juegos;
pub use mensajes::{lista_cartas, mensaje_cartas, seccion_tabla};
pub use partida::{
    DatosJugador, ErrorCortar, ErrorExpulsar, ErrorLevantar, ErrorTirar, Partida, PilaCartas,
    RegistroPartida, ResultadoFinalRonda,
};
