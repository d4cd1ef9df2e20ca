//! Estadísticas acumuladas de un jugador: victorias y derrotas.

use vstd::prelude::*;

verus! {

/// Victorias y derrotas acumuladas de un jugador.
#[derive(Clone, Copy, Debug, PartialEq, Eq, Structural)]
pub struct EstadisticasJugador {
    pub victorias: u64,
    pub derrotas: u64,
}

impl EstadisticasJugador {
    /// Cuántas partidas jugó en total.
    pub fn partidas(&self) -> (r: u64)
        requires
            self.victorias + self.derrotas <= u64::MAX,
        ensures
            r == self.victorias + self.derrotas,
    {
        self.victorias + self.derrotas
    }

    /// Porcentaje de partidas ganadas, redondeado hacia abajo; nada si no
    /// jugó ninguna.
    pub fn porcentaje_ganadas(&self) -> (r: Option<u64>)
        requires
            self.victorias * 100 <= u64::MAX,
            self.victorias + self.derrotas <= u64::MAX,
        ensures
            self.victorias + self.derrotas == 0 ==> r is None,
            self.victorias + self.derrotas > 0 ==> r == Some(
                (self.victorias * 100 / (self.victorias + self.derrotas)) as u64,
            ),
    {
        let total = self.victorias + self.derrotas;
        if total == 0 {
            None
        } else {
            Some(self.victorias * 100 / total)
        }
    }
}

} // verus!
