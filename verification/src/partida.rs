//! Máquina de estados de una partida: mazo, descartes, jugadores con sus
//! manos y puntajes, el puntero de turno y el ciclo de rondas.

use vstd::prelude::*;
use rand::seq::SliceRandom;
use crate::cartas::{Carta, Palo, carta_valida, cartas_validas, clave_mano, copiar_cartas,
    indice_palo, lema_clave_mano_inyectiva};
use crate::conteo::{
    cuenta, lema_cuenta_concat, lema_cuenta_contiene, lema_cuenta_insert, lema_cuenta_remove,
    lema_cuenta_sin_duplicados, lema_sin_duplicados_cuenta, lema_suma_mismo_conteo, mismo_conteo,
    suma_nums,
};
use crate::juegos::{
    contiene_carta, en_sel, es_juego_valido, formar_juegos, juego_de, lema_estricta_mano,
    ordenada_mano, peso_sel, seleccion_de_mano, vista2,
};

verus! {

/// Pila de la que puede levantarse una carta.
#[derive(Clone, Copy, Debug, PartialEq, Eq, Structural)]
pub enum PilaCartas {
    Mazo,
    Descartes,
}

/// Fallas al tirar una carta.
#[derive(Clone, Copy, Debug, PartialEq, Eq, Structural)]
pub enum ErrorTirar {
    NoEsTurno,
    DebeLevantar,
    NoTieneCarta,
}

/// Fallas al levantar una carta.
#[derive(Clone, Copy, Debug, PartialEq, Eq, Structural)]
pub enum ErrorLevantar {
    NoEsTurno,
    DebeBajar,
    NoHayDescartes,
}

/// Fallas al cortar.
#[derive(Clone, Copy, Debug, PartialEq, Eq, Structural)]
pub enum ErrorCortar {
    NoEsTurno,
    PuntajeMuyAlto,
    NoTieneCarta,
    NoPuedeBajar,
    DebeBajar,
}

/// Fallas al votar una expulsión.
#[derive(Clone, Copy, Debug, PartialEq, Eq, Structural)]
pub enum ErrorExpulsar {
    NoEstaEnPartida,
}

/// El estado de un jugador dentro de la partida.
#[derive(Clone, Debug)]
pub struct DatosJugador {
    pub id: u64,
    pub mano: Vec<Carta>,
    pub puntos: i16,
    pub votos_expulsar: Vec<u64>,
    pub eliminado: bool,
}

/// Un jugador perdió si su puntaje pasó de 100 o si fue eliminado.
pub open spec fn perdio_j(j: DatosJugador) -> bool {
    j.puntos > 100 || j.eliminado
}

/// Cantidad de jugadores que siguen en juego.
pub open spec fn num_activos(js: Seq<DatosJugador>) -> int
    decreases js.len(),
{
    if js.len() == 0 {
        0
    } else {
        num_activos(js.drop_last()) + if perdio_j(js.last()) {
            0int
        } else {
            1int
        }
    }
}

/// Copias de la carta `c` repartidas entre todas las manos.
pub open spec fn cuenta_manos(js: Seq<DatosJugador>, c: Carta) -> nat
    decreases js.len(),
{
    if js.len() == 0 {
        0
    } else {
        cuenta_manos(js.drop_last(), c) + cuenta(js.last().mano@, c)
    }
}

/// Cartas totales en todas las manos.
pub open spec fn largo_manos(js: Seq<DatosJugador>) -> int
    decreases js.len(),
{
    if js.len() == 0 {
        0
    } else {
        largo_manos(js.drop_last()) + js.last().mano@.len()
    }
}

/// Posición `d` lugares después de `desde`, dando la vuelta en `len`.
pub open spec fn pos_girada(desde: int, d: int, len: int) -> int {
    if desde + d < len {
        desde + d
    } else {
        desde + d - len
    }
}

/// `r` es el primer jugador en juego estrictamente después de `desde`,
/// dando la vuelta (y puede ser el propio `desde` si no hay otro).
pub open spec fn es_siguiente_activo(js: Seq<DatosJugador>, desde: int, r: int) -> bool {
    exists|d: int|
        1 <= d <= js.len() && r == pos_girada(desde, d, js.len() as int) && !perdio_j(
            #[trigger] js[pos_girada(desde, d, js.len() as int)],
        ) && (forall|d2: int|
            1 <= d2 < d ==> perdio_j(#[trigger] js[pos_girada(desde, d2, js.len() as int)]))
}

/// Una mano bien llevada: ordenada por la clave (número, palo), sin cartas
/// repetidas, todas válidas y nunca más de ocho.
pub open spec fn mano_bien(m: Seq<Carta>) -> bool {
    ordenada_mano(m) && m.no_duplicates() && cartas_validas(m) && m.len() <= 8
}

/// Una partida de chinchón.
pub struct Partida {
    mazo: Vec<Carta>,
    descartes: Vec<Carta>,
    pila_ultimo_levante: Option<PilaCartas>,
    jugadores: Vec<DatosJugador>,
    turno: usize,
    inicia_prox_ronda: usize,
    ultima_jugada: u64,
}

impl Partida {
    /// El mazo, visto como secuencia (el final es el tope).
    pub closed spec fn vista_mazo(self) -> Seq<Carta> {
        self.mazo@
    }

    /// Los descartes, vistos como secuencia (el final es el tope).
    pub closed spec fn vista_descartes(self) -> Seq<Carta> {
        self.descartes@
    }

    /// De qué pila se levantó por última vez en la ronda.
    pub closed spec fn vista_ultimo_levante(self) -> Option<PilaCartas> {
        self.pila_ultimo_levante
    }

    /// Los jugadores, en el orden fijado al crear la partida.
    pub closed spec fn vista_jugadores(self) -> Seq<DatosJugador> {
        self.jugadores@
    }

    /// El índice del jugador al que le toca jugar.
    pub closed spec fn vista_turno(self) -> int {
        self.turno as int
    }

    /// El índice desde el que se busca quién abre la próxima ronda.
    pub closed spec fn vista_inicia(self) -> int {
        self.inicia_prox_ronda as int
    }

    /// El instante (un entero que pone quien integra, por ejemplo segundos)
    /// de la última jugada marcada.
    pub closed spec fn vista_ultima_jugada(self) -> u64 {
        self.ultima_jugada
    }

    /// Copias de la carta `c` en toda la partida.
    pub open spec fn cuenta_total(self, c: Carta) -> nat {
        cuenta(self.vista_mazo(), c) + cuenta(self.vista_descartes(), c) + cuenta_manos(
            self.vista_jugadores(),
            c,
        )
    }

    /// Conservación de cartas: cada carta de la baraja está exactamente una
    /// vez en la partida (entre mazo, descartes y manos) y ninguna otra cosa
    /// circula.
    pub open spec fn conservacion(self) -> bool {
        forall|c: Carta|
            self.cuenta_total(c) == if carta_valida(c) {
                1nat
            } else {
                0nat
            }
    }

    /// Invariante de la partida.
    pub open spec fn bien_formada(self) -> bool {
        let js = self.vista_jugadores();
        &&& 2 <= js.len() <= 4
        &&& 0 <= self.vista_turno() < js.len()
        &&& 0 <= self.vista_inicia() < js.len()
        &&& forall|i: int, k: int|
            0 <= i < k < js.len() ==> (#[trigger] js[i]).id != (#[trigger] js[k]).id
        &&& forall|i: int| 0 <= i < js.len() ==> mano_bien((#[trigger] js[i]).mano@)
        &&& forall|i: int|
            0 <= i < js.len() ==> 0 <= (#[trigger] js[i]).puntos <= 1196 && js[i].votos_expulsar@.no_duplicates()
        &&& forall|i: int|
            0 <= i < js.len() ==> if perdio_j(#[trigger] js[i]) {
                js[i].mano@.len() == 0
            } else {
                js[i].mano@.len() == 7 || (i == self.vista_turno() && js[i].mano@.len() == 8)
            }
        &&& cartas_validas(self.vista_mazo())
        &&& cartas_validas(self.vista_descartes())
        &&& self.conservacion()
        &&& self.vista_mazo().len() + self.vista_descartes().len() + largo_manos(js) == 48
        &&& (num_activos(js) >= 1 ==> !perdio_j(js[self.vista_turno()]))
    }

    /// Índice del jugador con esa identidad, si está en la partida.
    pub open spec fn indice_de(self, id: u64) -> int {
        choose|i: int| 0 <= i < self.vista_jugadores().len() && self.vista_jugadores()[i].id == id
    }

    /// ¿Hay un jugador en juego con esa identidad?
    pub open spec fn es_jugador_activo(self, id: u64) -> bool {
        exists|i: int|
            0 <= i < self.vista_jugadores().len() && (#[trigger] self.vista_jugadores()[i]).id
                == id && !perdio_j(self.vista_jugadores()[i])
    }
}

/// Confía en `SliceRandom::shuffle` de rand: reordena las cartas en el
/// lugar, sin agregar ni quitar ninguna.
#[verifier::external_body]
fn mezclar(cartas: &mut Vec<Carta>)
    ensures
        mismo_conteo(final(cartas)@, old(cartas)@),
        final(cartas)@.len() == old(cartas)@.len(),
{
    cartas.shuffle(&mut rand::thread_rng());
}

/// Las cuatro variantes de palo, por índice.
fn palo_de_indice(p: u8) -> (r: Palo)
    requires
        p < 4,
    ensures
        indice_palo(r) == p as int,
{
    match p {
        0u8 => Palo::Copa,
        1u8 => Palo::Espada,
        2u8 => Palo::Oro,
        _ => Palo::Basto,
    }
}

/// Arma el mazo completo: las 48 cartas, una por cada número y palo, y lo
/// deja mezclado.
#[verifier::loop_isolation(false)]
fn mazo_mezclado() -> (r: Vec<Carta>)
    ensures
        forall|c: Carta|
            cuenta(r@, c) == if carta_valida(c) {
                1nat
            } else {
                0nat
            },
        r@.len() == 48,
        cartas_validas(r@),
{
    let mut r: Vec<Carta> = Vec::new();
    let mut n: u8 = 1;
    while n <= 12
        invariant
            1 <= n <= 13,
            r@.len() == 4 * (n - 1),
            cartas_validas(r@),
            forall|c: Carta|
                #![trigger cuenta(r@, c)]
                cuenta(r@, c) == if carta_valida(c) && c.num < n {
                    1nat
                } else {
                    0nat
                },
        decreases 13 - n,
    {
        let mut p: u8 = 0;
        while p < 4
            invariant
                0 <= p <= 4,
                1 <= n <= 12,
                r@.len() == 4 * (n - 1) + p,
                cartas_validas(r@),
                forall|c: Carta|
                    #![trigger cuenta(r@, c)]
                    cuenta(r@, c) == if carta_valida(c) && (c.num < n || (c.num == n
                        && indice_palo(c.palo) < p)) {
                        1nat
                    } else {
                        0nat
                    },
            decreases 4 - p,
        {
            let carta = Carta { num: n, palo: palo_de_indice(p) };
            let ghost antes = r@;
            r.push(carta);
            p += 1;
            proof {
                assert(r@.drop_last() =~= antes);
                assert(r@.last() == carta);
                assert(carta.num == n && indice_palo(carta.palo) == p - 1);
                assert forall|c: Carta|
                    #![trigger cuenta(r@, c)]
                    cuenta(r@, c) == (if carta_valida(c) && (c.num < n || (c.num == n
                        && indice_palo(c.palo) < p)) {
                        1nat
                    } else {
                        0nat
                    }) by {
                    assert(cuenta(r@, c) == cuenta(antes, c) + if carta == c {
                        1nat
                    } else {
                        0nat
                    });
                    if c == carta {
                        assert(carta_valida(c));
                        assert(!(c.num < n || (c.num == n && indice_palo(c.palo) < p - 1)));
                    } else {
                        if c.num == n && indice_palo(c.palo) == p - 1 {
                            assert(clave_mano(c) == clave_mano(carta));
                            lema_clave_mano_inyectiva(c, carta);
                        }
                    }
                }
                assert(cartas_validas(r@)) by {
                    assert forall|i: int| 0 <= i < r@.len() implies carta_valida(
                        #[trigger] r@[i],
                    ) by {
                        if i < antes.len() {
                            assert(r@[i] == antes[i]);
                        } else {
                            assert(r@[i] == carta);
                        }
                    }
                }
            }
        }
        n += 1;
    }
    proof {
        assert forall|c: Carta|
            cuenta(r@, c) == (if carta_valida(c) {
                1nat
            } else {
                0nat
            }) by {
            if carta_valida(c) {
                assert(c.num < 13);
            }
        }
    }
    let ghost previo = r@;
    mezclar(&mut r);
    proof {
        assert forall|c: Carta|
            cuenta(r@, c) == (if carta_valida(c) {
                1nat
            } else {
                0nat
            }) by {
            assert(cuenta(r@, c) == cuenta(previo, c));
        }
        assert(cartas_validas(r@)) by {
            lema_cuenta_contiene(r@);
            assert forall|i: int| 0 <= i < r@.len() implies carta_valida(#[trigger] r@[i]) by {
                assert(r@.contains(r@[i]));
                assert(cuenta(r@, r@[i]) > 0);
            }
        }
    }
    r
}

/// Mete una carta en una mano conservando el orden.
#[verifier::loop_isolation(false)]
fn insertar_en_mano(mano: &mut Vec<Carta>, c: Carta)
    requires
        ordenada_mano(old(mano)@),
        old(mano)@.no_duplicates(),
        cuenta(old(mano)@, c) == 0,
        carta_valida(c),
        cartas_validas(old(mano)@),
        old(mano)@.len() < 8,
    ensures
        ordenada_mano(final(mano)@),
        final(mano)@.no_duplicates(),
        cartas_validas(final(mano)@),
        final(mano)@.len() == old(mano)@.len() + 1,
        forall|x: Carta|
            cuenta(final(mano)@, x) == cuenta(old(mano)@, x) + if x == c {
                1nat
            } else {
                0nat
            },
{
    let mut pos: usize = 0;
    while pos < mano.len() && mano[pos].clave_mano_exec() <= c.clave_mano_exec()
        invariant
            0 <= pos <= mano@.len(),
            mano@ == old(mano)@,
            forall|k: int| 0 <= k < pos ==> clave_mano(#[trigger] mano@[k]) <= clave_mano(c),
        decreases mano@.len() - pos,
    {
        pos += 1;
    }
    let ghost antes = mano@;
    mano.insert(pos, c);
    proof {
        antes.insert_ensures(pos as int, c);
        lema_cuenta_insert(antes, pos as int, c);
        lema_sin_duplicados_cuenta(antes);
        assert forall|a: int, b: int| 0 <= a < b < mano@.len() implies clave_mano(
            #[trigger] mano@[a],
        ) <= clave_mano(#[trigger] mano@[b]) by {
            if b < pos {
                assert(mano@[a] == antes[a] && mano@[b] == antes[b]);
            } else if a < pos && b == pos {
                assert(mano@[a] == antes[a]);
            } else if a < pos && b > pos {
                assert(mano@[a] == antes[a] && mano@[b] == antes[b - 1]);
            } else if a == pos {
                assert(mano@[b] == antes[b - 1]);
                assert(pos < antes.len());
                assert(clave_mano(c) < clave_mano(antes[pos as int]));
                assert(clave_mano(antes[pos as int]) <= clave_mano(antes[b - 1]));
            } else {
                assert(mano@[a] == antes[a - 1] && mano@[b] == antes[b - 1]);
            }
        }
        assert(mano@.no_duplicates()) by {
            assert forall|x: Carta| cuenta(mano@, x) <= 1 by {
                assert(cuenta(mano@, x) == cuenta(antes, x) + if x == c {
                    1nat
                } else {
                    0nat
                });
            }
            lema_cuenta_sin_duplicados(mano@);
        }
        assert(cartas_validas(mano@)) by {
            assert forall|i: int| 0 <= i < mano@.len() implies carta_valida(#[trigger] mano@[i]) by {
                if i < pos {
                    assert(mano@[i] == antes[i]);
                } else if i == pos {
                    assert(mano@[i] == c);
                } else {
                    assert(mano@[i] == antes[i - 1]);
                }
            }
        }
    }
}

} // verus!

verus! {

/// Copia un vector de identidades.
fn copiar_ids(v: &Vec<u64>) -> (r: Vec<u64>)
    ensures
        r@ == v@,
{
    let mut r: Vec<u64> = Vec::new();
    let mut i: usize = 0;
    while i < v.len()
        invariant
            0 <= i <= v@.len(),
            r@ == v@.subrange(0, i as int),
        decreases v@.len() - i,
    {
        r.push(v[i]);
        proof {
            assert(v@.subrange(0, i as int).push(v@[i as int]) =~= v@.subrange(0, i + 1));
        }
        i += 1;
    }
    proof {
        assert(v@.subrange(0, v@.len() as int) =~= v@);
    }
    r
}

/// Agregar un jugador a la lista suma su mano a los conteos.
proof fn lema_manos_push(js: Seq<DatosJugador>, j: DatosJugador)
    ensures
        forall|c: Carta|
            cuenta_manos(#[trigger] js.push(j), c) == cuenta_manos(js, c) + cuenta(j.mano@, c),
        largo_manos(js.push(j)) == largo_manos(js) + j.mano@.len(),
        num_activos(js.push(j)) == num_activos(js) + if perdio_j(j) {
            0int
        } else {
            1int
        },
{
    assert(js.push(j).drop_last() =~= js);
    assert(js.push(j).last() == j);
}

/// Reemplazar a un jugador ajusta los conteos según lo que cambió.
proof fn lema_manos_update(js: Seq<DatosJugador>, i: int, j2: DatosJugador)
    requires
        0 <= i < js.len(),
    ensures
        forall|c: Carta|
            cuenta_manos(#[trigger] js.update(i, j2), c) + cuenta(js[i].mano@, c) == cuenta_manos(
                js,
                c,
            ) + cuenta(j2.mano@, c),
        largo_manos(js.update(i, j2)) == largo_manos(js) - js[i].mano@.len() + j2.mano@.len(),
        num_activos(js.update(i, j2)) == num_activos(js) - (if perdio_j(js[i]) {
            0int
        } else {
            1int
        }) + (if perdio_j(j2) {
            0int
        } else {
            1int
        }),
    decreases js.len(),
{
    let u = js.update(i, j2);
    if i == js.len() - 1 {
        assert(u.drop_last() =~= js.drop_last());
        assert(u.last() == j2);
        assert(js.last() == js[i]);
        assert forall|c: Carta|
            cuenta_manos(u, c) + cuenta(js[i].mano@, c) == cuenta_manos(js, c) + cuenta(
            j2.mano@,
            c,
        ) by {
            assert(cuenta_manos(u, c) == cuenta_manos(u.drop_last(), c) + cuenta(u.last().mano@, c));
            assert(cuenta_manos(js, c) == cuenta_manos(js.drop_last(), c) + cuenta(
                js.last().mano@,
                c,
            ));
        }
    } else {
        assert(u.drop_last() =~= js.drop_last().update(i, j2));
        assert(u.last() == js.last());
        assert(js.drop_last()[i] == js[i]);
        lema_manos_update(js.drop_last(), i, j2);
        assert forall|c: Carta|
            cuenta_manos(u, c) + cuenta(js[i].mano@, c) == cuenta_manos(js, c) + cuenta(
            j2.mano@,
            c,
        ) by {
            assert(cuenta_manos(u, c) == cuenta_manos(u.drop_last(), c) + cuenta(u.last().mano@, c));
            assert(cuenta_manos(js, c) == cuenta_manos(js.drop_last(), c) + cuenta(
                js.last().mano@,
                c,
            ));
            assert(cuenta_manos(js.drop_last().update(i, j2), c) + cuenta(
                js.drop_last()[i].mano@,
                c,
            ) == cuenta_manos(js.drop_last(), c) + cuenta(j2.mano@, c));
        }
    }
}

/// La mano de cada jugador cabe en los conteos del total.
proof fn lema_manos_indice(js: Seq<DatosJugador>, i: int)
    requires
        0 <= i < js.len(),
    ensures
        forall|c: Carta| cuenta(js[i].mano@, c) <= cuenta_manos(js, c),
        !perdio_j(js[i]) ==> num_activos(js) >= 1,
        num_activos(js) >= 0,
        js[i].mano@.len() <= largo_manos(js),
        largo_manos(js) >= 0,
    decreases js.len(),
{
    if i == js.len() - 1 {
        assert(js.last() == js[i]);
        lema_activos_no_negativo(js.drop_last());
        assert forall|c: Carta| cuenta(js[i].mano@, c) <= cuenta_manos(js, c) by {
            assert(cuenta_manos(js, c) == cuenta_manos(js.drop_last(), c) + cuenta(
                js.last().mano@,
                c,
            ));
        }
    } else {
        assert(js.drop_last()[i] == js[i]);
        lema_manos_indice(js.drop_last(), i);
        assert forall|c: Carta| cuenta(js[i].mano@, c) <= cuenta_manos(js, c) by {
            assert(cuenta(js.drop_last()[i].mano@, c) <= cuenta_manos(js.drop_last(), c));
            assert(cuenta_manos(js, c) == cuenta_manos(js.drop_last(), c) + cuenta(
                js.last().mano@,
                c,
            ));
        }
    }
}

/// Las cuentas de jugadores en juego y de cartas en mano nunca son negativas.
proof fn lema_activos_no_negativo(js: Seq<DatosJugador>)
    ensures
        num_activos(js) >= 0,
        largo_manos(js) >= 0,
    decreases js.len(),
{
    if js.len() > 0 {
        lema_activos_no_negativo(js.drop_last());
    }
}

/// No queda nadie en juego exactamente cuando todos perdieron.
proof fn lema_activos_cero(js: Seq<DatosJugador>)
    ensures
        (num_activos(js) == 0) <==> (forall|i: int| 0 <= i < js.len() ==> perdio_j(#[trigger] js[i])),
    decreases js.len(),
{
    lema_activos_no_negativo(js);
    if js.len() > 0 {
        lema_activos_cero(js.drop_last());
        lema_activos_no_negativo(js.drop_last());
        assert(js.last() == js[js.len() - 1]);
        assert(forall|i: int| 0 <= i < js.len() - 1 ==> js.drop_last()[i] == #[trigger] js[i]);
    }
}

/// Si dos listas coinciden jugador a jugador en quién perdió, la cuenta de
/// jugadores en juego coincide.
proof fn lema_activos_pareado(a: Seq<DatosJugador>, b: Seq<DatosJugador>)
    requires
        a.len() == b.len(),
        forall|i: int| 0 <= i < a.len() ==> perdio_j(#[trigger] a[i]) == perdio_j(b[i]),
    ensures
        num_activos(a) == num_activos(b),
    decreases a.len(),
{
    if a.len() > 0 {
        assert(forall|i: int|
            0 <= i < a.len() - 1 ==> perdio_j(#[trigger] a.drop_last()[i]) == perdio_j(
                b.drop_last()[i],
            ) && a.drop_last()[i] == a[i] && b.drop_last()[i] == b[i]);
        lema_activos_pareado(a.drop_last(), b.drop_last());
        assert(a.last() == a[a.len() - 1] && b.last() == b[b.len() - 1]);
    }
}

/// Quién es el siguiente en juego sólo depende de quién perdió.
proof fn lema_siguiente_pareado(a: Seq<DatosJugador>, b: Seq<DatosJugador>, desde: int, r: int)
    requires
        a.len() == b.len(),
        0 <= desde < a.len(),
        forall|i: int| 0 <= i < a.len() ==> perdio_j(#[trigger] a[i]) == perdio_j(b[i]),
        es_siguiente_activo(a, desde, r),
    ensures
        es_siguiente_activo(b, desde, r),
{
    let d = choose|d: int|
        1 <= d <= a.len() && r == pos_girada(desde, d, a.len() as int) && !perdio_j(
            #[trigger] a[pos_girada(desde, d, a.len() as int)],
        ) && (forall|d2: int|
            1 <= d2 < d ==> perdio_j(#[trigger] a[pos_girada(desde, d2, a.len() as int)]));
    assert(0 <= pos_girada(desde, d, a.len() as int) < a.len());
    assert(!perdio_j(b[pos_girada(desde, d, b.len() as int)]));
    assert forall|d2: int| 1 <= d2 < d implies perdio_j(
        #[trigger] b[pos_girada(desde, d2, b.len() as int)],
    ) by {
        assert(0 <= pos_girada(desde, d2, a.len() as int) < a.len());
        assert(perdio_j(a[pos_girada(desde, d2, a.len() as int)]));
    }
    assert(1 <= d <= b.len() && r == pos_girada(desde, d, b.len() as int));
}

/// Cota del total de cartas en mano cuando ninguna mano pasa de ocho.
proof fn lema_largo_cota(js: Seq<DatosJugador>)
    requires
        forall|i: int| 0 <= i < js.len() ==> (#[trigger] js[i]).mano@.len() <= 8,
    ensures
        largo_manos(js) <= 8 * js.len(),
    decreases js.len(),
{
    if js.len() > 0 {
        assert(forall|i: int|
            0 <= i < js.len() - 1 ==> (#[trigger] js.drop_last()[i]).mano@.len() <= 8);
        lema_largo_cota(js.drop_last());
        assert(js.last() == js[js.len() - 1]);
    }
}

/// Total de cartas en mano cuando todos llevan siete.
proof fn lema_largo_sietes(js: Seq<DatosJugador>)
    requires
        forall|i: int| 0 <= i < js.len() ==> (#[trigger] js[i]).mano@.len() == 7,
    ensures
        largo_manos(js) == 7 * js.len(),
    decreases js.len(),
{
    if js.len() > 0 {
        assert(forall|i: int|
            0 <= i < js.len() - 1 ==> (#[trigger] js.drop_last()[i]).mano@.len() == 7);
        lema_largo_sietes(js.drop_last());
        assert(js.last() == js[js.len() - 1]);
    }
}

/// Total de cartas en mano cuando el del turno lleva ocho y los demás siete.
proof fn lema_largo_reparto(js: Seq<DatosJugador>, turno: int)
    requires
        0 <= turno < js.len(),
        forall|i: int|
            0 <= i < js.len() ==> (#[trigger] js[i]).mano@.len() == (if i == turno {
                8int
            } else {
                7int
            }),
    ensures
        largo_manos(js) == 7 * js.len() + 1,
    decreases js.len(),
{
    if turno == js.len() - 1 {
        assert(forall|i: int|
            0 <= i < js.len() - 1 ==> (#[trigger] js.drop_last()[i]).mano@.len() == 7);
        lema_largo_sietes(js.drop_last());
        assert(js.last() == js[js.len() - 1]);
    } else {
        assert(forall|i: int|
            0 <= i < js.len() - 1 ==> (#[trigger] js.drop_last()[i]).mano@.len() == (if i
                == turno {
                8int
            } else {
                7int
            }));
        lema_largo_reparto(js.drop_last(), turno);
        assert(js.last() == js[js.len() - 1]);
    }
}

/// Busca al primer jugador en juego que sigue a `desde`, dando la vuelta.
#[verifier::loop_isolation(false)]
fn proximo_activo(jugadores: &Vec<DatosJugador>, desde: usize) -> (r: usize)
    requires
        desde < jugadores@.len(),
        jugadores@.len() <= 4,
        num_activos(jugadores@) >= 1,
    ensures
        r < jugadores@.len(),
        es_siguiente_activo(jugadores@, desde as int, r as int),
        !perdio_j(jugadores@[r as int]),
{
    let n = jugadores.len();
    let mut k: usize = 1;
    while k <= n
        invariant
            1 <= k <= n + 1,
            forall|d: int|
                1 <= d < k ==> perdio_j(
                    #[trigger] jugadores@[pos_girada(desde as int, d, n as int)],
                ),
        decreases n - k + 1,
    {
        let bruto = desde + k;
        let idx = if bruto >= n {
            bruto - n
        } else {
            bruto
        };
        proof {
            assert(idx as int == pos_girada(desde as int, k as int, n as int));
        }
        let j = &jugadores[idx];
        if !(j.puntos > 100 || j.eliminado) {
            proof {
                assert(!perdio_j(jugadores@[idx as int]));
                assert(es_siguiente_activo(jugadores@, desde as int, idx as int)) by {
                    assert(1 <= k as int <= jugadores@.len());
                }
            }
            return idx;
        }
        k += 1;
    }
    proof {
        assert forall|i: int| 0 <= i < jugadores@.len() implies perdio_j(
            #[trigger] jugadores@[i],
        ) by {
            let d: int = if i > desde {
                i - desde
            } else {
                i - desde + n
            };
            assert(1 <= d <= n);
            assert(pos_girada(desde as int, d, n as int) == i);
        }
        lema_activos_cero(jugadores@);
        assert(false);
    }
    0
}

impl Partida {
    /// Reparte una ronda nueva: mazo fresco mezclado, descartes vacíos, ocho
    /// cartas para quien abre y siete para los demás jugadores en juego.
    #[verifier::loop_isolation(false)]
    #[verifier::rlimit(100)]
    fn comenzar_ronda(&mut self)
        requires
            2 <= old(self).vista_jugadores().len() <= 4,
            0 <= old(self).vista_inicia() < old(self).vista_jugadores().len(),
            forall|i: int, k: int|
                0 <= i < k < old(self).vista_jugadores().len() ==> (#[trigger] old(
                    self,
                ).vista_jugadores()[i]).id != (#[trigger] old(self).vista_jugadores()[k]).id,
            forall|i: int|
                0 <= i < old(self).vista_jugadores().len() ==> 0 <= (#[trigger] old(
                    self,
                ).vista_jugadores()[i]).puntos <= 1196 && old(
                    self,
                ).vista_jugadores()[i].votos_expulsar@.no_duplicates(),
            num_activos(old(self).vista_jugadores()) >= 1,
        ensures
            final(self).bien_formada(),
            final(self).vista_jugadores().len() == old(self).vista_jugadores().len(),
            forall|i: int|
                0 <= i < final(self).vista_jugadores().len() ==> {
                    let antes = old(self).vista_jugadores()[i];
                    let ahora = #[trigger] final(self).vista_jugadores()[i];
                    ahora.id == antes.id && ahora.puntos == antes.puntos && ahora.eliminado
                        == antes.eliminado && ahora.votos_expulsar@ == antes.votos_expulsar@
                },
            final(self).vista_descartes().len() == 0,
            final(self).vista_ultimo_levante() is None,
            final(self).vista_ultima_jugada() == old(self).vista_ultima_jugada(),
            !perdio_j(final(self).vista_jugadores()[final(self).vista_turno()]),
            (!perdio_j(old(self).vista_jugadores()[old(self).vista_inicia()]) ==> final(self).vista_turno()
                == old(self).vista_inicia()),
            (perdio_j(old(self).vista_jugadores()[old(self).vista_inicia()])
                ==> es_siguiente_activo(
                old(self).vista_jugadores(),
                old(self).vista_inicia(),
                final(self).vista_turno(),
            )),
            es_siguiente_activo(final(self).vista_jugadores(), final(self).vista_turno(), final(self).vista_inicia()),
            forall|i: int|
                0 <= i < final(self).vista_jugadores().len() ==> (#[trigger] final(self).vista_jugadores()[i]).mano@.len()
                    == (if perdio_j(final(self).vista_jugadores()[i]) {
                    0int
                } else if i == final(self).vista_turno() {
                    8int
                } else {
                    7int
                }),
    {
        let ghost js0 = self.jugadores@;
        self.descartes = Vec::new();
        self.pila_ultimo_levante = None;
        self.mazo = mazo_mezclado();
        let ene = self.jugadores.len();
        let abre = {
            let j = &self.jugadores[self.inicia_prox_ronda];
            if !(j.puntos > 100 || j.eliminado) {
                self.inicia_prox_ronda
            } else {
                proximo_activo(&self.jugadores, self.inicia_prox_ronda)
            }
        };
        let mut nuevos: Vec<DatosJugador> = Vec::new();
        let mut i: usize = 0;
        while i < ene
            invariant
                0 <= i <= ene,
                ene == js0.len(),
                2 <= ene <= 4,
                abre < ene,
                self.jugadores@ == js0,
                self.descartes@.len() == 0,
                self.pila_ultimo_levante is None,
                self.ultima_jugada == old(self).vista_ultima_jugada(),
                cartas_validas(self.mazo@),
                nuevos@.len() == i,
                forall|q: int|
                    0 <= q < i ==> {
                        let antes = js0[q];
                        let ahora = #[trigger] nuevos@[q];
                        ahora.id == antes.id && ahora.puntos == antes.puntos && ahora.eliminado
                            == antes.eliminado && ahora.votos_expulsar@ == antes.votos_expulsar@
                    },
                forall|q: int|
                    0 <= q < i ==> mano_bien((#[trigger] nuevos@[q]).mano@)
                        && nuevos@[q].mano@.len() == (if perdio_j(nuevos@[q]) {
                        0int
                    } else if q == abre {
                        8int
                    } else {
                        7int
                    }),
                forall|c: Carta|
                    #![trigger cuenta(self.mazo@, c)]
                    cuenta(self.mazo@, c) + cuenta_manos(nuevos@, c) == if carta_valida(c) {
                        1nat
                    } else {
                        0nat
                    },
                self.mazo@.len() + largo_manos(nuevos@) == 48,
            decreases ene - i,
        {
            proof {
                lema_activos_no_negativo(nuevos@);
                lema_largo_cota(nuevos@);
            }
            let perdio_el = {
                let j = &self.jugadores[i];
                j.puntos > 100 || j.eliminado
            };
            let cuantas: usize = if perdio_el {
                0
            } else if i == abre {
                8
            } else {
                7
            };
            let mut mano: Vec<Carta> = Vec::new();
            let mut k: usize = 0;
            while k < cuantas
                invariant
                    0 <= k <= cuantas,
                    cuantas <= 8,
                    mano@.len() == k,
                    mano_bien(mano@),
                    cartas_validas(self.mazo@),
                    self.jugadores@ == js0,
                    self.descartes@.len() == 0,
                    self.pila_ultimo_levante is None,
                    self.ultima_jugada == old(self).vista_ultima_jugada(),
                    forall|c: Carta|
                        #![trigger cuenta(self.mazo@, c)]
                        cuenta(self.mazo@, c) + cuenta_manos(nuevos@, c) + cuenta(mano@, c)
                            == if carta_valida(c) {
                            1nat
                        } else {
                            0nat
                        },
                    self.mazo@.len() + largo_manos(nuevos@) + mano@.len() == 48,
                    largo_manos(nuevos@) <= 8 * nuevos@.len(),
                    nuevos@.len() == i,
                decreases cuantas - k,
            {
                proof {
                    assert(self.mazo@.len() >= 48 - 8 * 4 - 8);
                }
                let ghost mazo0 = self.mazo@;
                let ghost mano0 = mano@;
                let c = match self.mazo.pop() {
                    Some(c) => c,
                    None => {
                        proof {
                            assert(false);
                        }
                        Carta { num: 1, palo: Palo::Copa }
                    },
                };
                proof {
                    assert(mazo0 == self.mazo@.push(c));
                    assert(self.mazo@ =~= mazo0.drop_last());
                    assert(mazo0.last() == c);
                    assert(carta_valida(c)) by {
                        assert(mazo0[mazo0.len() - 1] == c);
                    }
                    assert(cartas_validas(self.mazo@)) by {
                        assert forall|q: int| 0 <= q < self.mazo@.len() implies carta_valida(
                            #[trigger] self.mazo@[q],
                        ) by {
                            assert(self.mazo@[q] == mazo0[q]);
                        }
                    }
                    assert(cuenta(mano@, c) == 0) by {
                        assert(cuenta(mazo0, c) == cuenta(self.mazo@, c) + 1);
                        assert(cuenta(mazo0, c) + cuenta_manos(nuevos@, c) + cuenta(mano@, c)
                            <= 1);
                    }
                }
                insertar_en_mano(&mut mano, c);
                proof {
                    assert forall|x: Carta|
                        #![trigger cuenta(self.mazo@, x)]
                        cuenta(self.mazo@, x) + cuenta_manos(nuevos@, x) + cuenta(mano@, x)
                            == (if carta_valida(x) {
                            1nat
                        } else {
                            0nat
                        }) by {
                        assert(cuenta(mazo0, x) + cuenta_manos(nuevos@, x) + cuenta(mano0, x)
                            == if carta_valida(x) {
                            1nat
                        } else {
                            0nat
                        });
                        assert(cuenta(mazo0, x) == cuenta(self.mazo@, x) + if x == c {
                            1nat
                        } else {
                            0nat
                        });
                        assert(cuenta(mano@, x) == cuenta(mano0, x) + if x == c {
                            1nat
                        } else {
                            0nat
                        });
                    }
                }
                k += 1;
            }
            let id_j;
            let puntos_j;
            let eliminado_j;
            {
                let j = &self.jugadores[i];
                id_j = j.id;
                puntos_j = j.puntos;
                eliminado_j = j.eliminado;
            }
            let votos_j = {
                let j = &self.jugadores[i];
                copiar_ids(&j.votos_expulsar)
            };
            let nuevo = DatosJugador {
                id: id_j,
                mano,
                puntos: puntos_j,
                votos_expulsar: votos_j,
                eliminado: eliminado_j,
            };
            let ghost nuevos0 = nuevos@;
            nuevos.push(nuevo);
            proof {
                lema_manos_push(nuevos0, nuevo);
                assert(forall|q: int| 0 <= q < nuevos0.len() ==> nuevos@[q] == #[trigger] nuevos0[q]);
                assert(nuevos@[i as int] == nuevo);
                assert(perdio_j(nuevo) == perdio_j(js0[i as int]));
            }
            i += 1;
        }
        self.jugadores = nuevos;
        self.turno = abre;
        proof {
            let js = self.vista_jugadores();
            assert(js.len() == js0.len());
            assert forall|q: int| 0 <= q < js.len() implies perdio_j(#[trigger] js[q]) == perdio_j(
                js0[q],
            ) by {}
            lema_activos_pareado(js, js0);
            assert(!perdio_j(js[abre as int]));
        }
        self.inicia_prox_ronda = proximo_activo(&self.jugadores, abre);
        proof {
            let js = self.vista_jugadores();
            assert(self.conservacion()) by {
                assert forall|c: Carta|
                    self.cuenta_total(c) == (if carta_valida(c) {
                        1nat
                    } else {
                        0nat
                    }) by {
                    assert(cuenta(self.mazo@, c) + cuenta_manos(js, c) == if carta_valida(c) {
                        1nat
                    } else {
                        0nat
                    });
                    assert(cuenta(self.descartes@, c) == 0);
                }
            }
            assert(self.bien_formada());
        }
    }

    /// Crea una partida con esos jugadores, en orden, y reparte la primera
    /// ronda: abre el primero de la lista.
    #[verifier::loop_isolation(false)]
    pub fn empezar(jugadores: &[u64]) -> (r: Partida)
        requires
            2 <= jugadores@.len() <= 4,
            forall|i: int, k: int|
                0 <= i < k < jugadores@.len() ==> (#[trigger] jugadores@[i]) != (
                #[trigger] jugadores@[k]),
        ensures
            r.bien_formada(),
            r.vista_jugadores().len() == jugadores@.len(),
            forall|i: int|
                0 <= i < jugadores@.len() ==> {
                    let j = #[trigger] r.vista_jugadores()[i];
                    j.id == jugadores@[i] && j.puntos == 0 && !j.eliminado
                        && j.votos_expulsar@.len() == 0
                },
            r.vista_turno() == 0,
            r.vista_inicia() == 1,
            r.vista_jugadores()[0].mano@.len() == 8,
            forall|i: int|
                1 <= i < jugadores@.len() ==> (#[trigger] r.vista_jugadores()[i]).mano@.len() == 7,
            r.vista_mazo().len() == 48 - 8 - 7 * (jugadores@.len() - 1),
            r.vista_descartes().len() == 0,
            r.vista_ultimo_levante() is None,
            r.vista_ultima_jugada() == 0,
    {
        let mut datos: Vec<DatosJugador> = Vec::new();
        let mut i: usize = 0;
        while i < jugadores.len()
            invariant
                0 <= i <= jugadores@.len(),
                datos@.len() == i,
                forall|q: int|
                    0 <= q < i ==> {
                        let j = #[trigger] datos@[q];
                        j.id == jugadores@[q] && j.puntos == 0 && !j.eliminado
                            && j.votos_expulsar@.len() == 0 && j.mano@.len() == 0
                    },
            decreases jugadores@.len() - i,
        {
            datos.push(
                DatosJugador {
                    id: jugadores[i],
                    mano: Vec::new(),
                    puntos: 0,
                    votos_expulsar: Vec::new(),
                    eliminado: false,
                },
            );
            i += 1;
        }
        let mut p = Partida {
            mazo: Vec::new(),
            descartes: Vec::new(),
            pila_ultimo_levante: None,
            jugadores: datos,
            turno: 0,
            inicia_prox_ronda: 0,
            ultima_jugada: 0,
        };
        proof {
            assert(num_activos(p.vista_jugadores()) >= 1) by {
                lema_manos_indice(p.vista_jugadores(), 0);
            }
        }
        p.comenzar_ronda();
        proof {
            let js = p.vista_jugadores();
            assert(forall|i: int|
                0 <= i < js.len() ==> !perdio_j(#[trigger] js[i]));
            assert(forall|i: int|
                0 <= i < js.len() ==> (#[trigger] js[i]).mano@.len() == (if i == 0 {
                    8int
                } else {
                    7int
                }));
            lema_largo_reparto(js, 0);
            assert(p.vista_mazo().len() == 48 - 8 - 7 * (js.len() - 1));
            assert(p.vista_inicia() == 1) by {
                assert(es_siguiente_activo(js, 0, p.vista_inicia()));
                let d = choose|d: int|
                    1 <= d <= js.len() && p.vista_inicia() == pos_girada(0, d, js.len() as int)
                        && !perdio_j(#[trigger] js[pos_girada(0, d, js.len() as int)]) && (forall|
                    d2: int,
                |
                    1 <= d2 < d ==> perdio_j(
                        #[trigger] js[pos_girada(0, d2, js.len() as int)],
                    ));
                if d > 1 {
                    assert(perdio_j(js[pos_girada(0, 1, js.len() as int)]));
                    assert(pos_girada(0, 1, js.len() as int) == 1);
                }
                assert(d == 1);
                assert(pos_girada(0, 1, js.len() as int) == 1);
            }
        }
        p
    }
}

} // verus!

verus! {

/// Quitar una carta de una mano ordenada la deja ordenada.
proof fn lema_orden_remove(m: Seq<Carta>, i: int)
    requires
        0 <= i < m.len(),
        ordenada_mano(m),
    ensures
        ordenada_mano(m.remove(i)),
{
    m.remove_ensures(i);
    let r = m.remove(i);
    assert forall|a: int, b: int| 0 <= a < b < r.len() implies clave_mano(#[trigger] r[a])
        <= clave_mano(#[trigger] r[b]) by {
        let a2: int = if a < i {
            a
        } else {
            a + 1
        };
        let b2: int = if b < i {
            b
        } else {
            b + 1
        };
        assert(r[a] == m[a2] && r[b] == m[b2]);
    }
}

/// Busca la posición de una carta en un vector.
fn buscar_carta(v: &Vec<Carta>, c: Carta) -> (r: Option<usize>)
    ensures
        match r {
            Some(p) => p < v@.len() && v@[p as int] == c,
            None => !v@.contains(c),
        },
{
    let mut i: usize = 0;
    while i < v.len()
        invariant
            0 <= i <= v@.len(),
            forall|k: int| 0 <= k < i ==> v@[k] != c,
        decreases v@.len() - i,
    {
        if v[i] == c {
            return Some(i);
        }
        i += 1;
    }
    None
}

impl Partida {
    /// Busca al jugador en juego con esa identidad.
    fn buscar(&self, id: u64) -> (r: Option<usize>)
        requires
            self.bien_formada(),
        ensures
            match r {
                Some(i) => i < self.vista_jugadores().len() && self.vista_jugadores()[i as int].id
                    == id && !perdio_j(self.vista_jugadores()[i as int]) && i as int
                    == self.indice_de(id),
                None => !self.es_jugador_activo(id),
            },
    {
        let mut i: usize = 0;
        while i < self.jugadores.len()
            invariant
                self.bien_formada(),
                0 <= i <= self.vista_jugadores().len(),
                forall|k: int|
                    0 <= k < i ==> !((#[trigger] self.vista_jugadores()[k]).id == id && !perdio_j(
                        self.vista_jugadores()[k],
                    )),
            decreases self.vista_jugadores().len() - i,
        {
            let j = &self.jugadores[i];
            if j.id == id && !(j.puntos > 100 || j.eliminado) {
                proof {
                    let e = self.indice_de(id);
                    assert(self.vista_jugadores()[i as int].id == id);
                    assert(0 <= e < self.vista_jugadores().len() && self.vista_jugadores()[e].id
                        == id);
                    if e != i as int {
                        assert(self.vista_jugadores()[e].id != self.vista_jugadores()[i as int].id);
                    }
                }
                return Some(i);
            }
            i += 1;
        }
        None
    }

    /// La carta a la vista en el tope de los descartes, si hay alguna.
    pub fn get_descarte(&self) -> (r: Option<Carta>)
        ensures
            r == (if self.vista_descartes().len() == 0 {
                Option::<Carta>::None
            } else {
                Option::Some(self.vista_descartes().last())
            }),
    {
        if self.descartes.len() == 0 {
            None
        } else {
            Some(self.descartes[self.descartes.len() - 1])
        }
    }

    /// Identidad del jugador al que le toca jugar.
    pub fn get_turno(&self) -> (r: u64)
        requires
            self.bien_formada(),
        ensures
            r == self.vista_jugadores()[self.vista_turno()].id,
    {
        self.jugadores[self.turno].id
    }

    /// De qué pila se levantó por última vez.
    pub fn get_pila_ultimo_levante(&self) -> (r: Option<PilaCartas>)
        ensures
            r == self.vista_ultimo_levante(),
    {
        self.pila_ultimo_levante
    }

    /// Puntos acumulados de cada jugador, en el orden de la partida.
    pub fn get_puntos(&self) -> (r: Vec<(u64, i16)>)
        ensures
            r@.len() == self.vista_jugadores().len(),
            forall|i: int|
                0 <= i < r@.len() ==> #[trigger] r@[i] == (
                self.vista_jugadores()[i].id,
                self.vista_jugadores()[i].puntos,
                ),
    {
        let mut r: Vec<(u64, i16)> = Vec::new();
        let mut i: usize = 0;
        while i < self.jugadores.len()
            invariant
                0 <= i <= self.vista_jugadores().len(),
                r@.len() == i,
                forall|k: int|
                    0 <= k < i ==> #[trigger] r@[k] == (
                    self.vista_jugadores()[k].id,
                    self.vista_jugadores()[k].puntos,
                    ),
            decreases self.vista_jugadores().len() - i,
        {
            let j = &self.jugadores[i];
            r.push((j.id, j.puntos));
            i += 1;
        }
        r
    }

    /// Cuántos jugadores siguen en juego.
    pub fn jugadores_en_juego(&self) -> (r: usize)
        ensures
            r as int == num_activos(self.vista_jugadores()),
    {
        let mut r: usize = 0;
        let mut i: usize = 0;
        while i < self.jugadores.len()
            invariant
                0 <= i <= self.vista_jugadores().len(),
                r as int == num_activos(self.vista_jugadores().subrange(0, i as int)),
                r <= i,
            decreases self.vista_jugadores().len() - i,
        {
            let j = &self.jugadores[i];
            proof {
                let js = self.vista_jugadores();
                assert(js.subrange(0, i + 1).drop_last() =~= js.subrange(0, i as int));
                assert(js.subrange(0, i + 1).last() == js[i as int]);
            }
            if !(j.puntos > 100 || j.eliminado) {
                r += 1;
            }
            i += 1;
        }
        proof {
            assert(self.vista_jugadores().subrange(0, self.vista_jugadores().len() as int)
                =~= self.vista_jugadores());
        }
        r
    }

    /// Si queda exactamente un jugador en juego, la partida terminó y él es
    /// el ganador.
    pub fn ganador(&self) -> (r: Option<u64>)
        requires
            self.bien_formada(),
        ensures
            r is Some <==> num_activos(self.vista_jugadores()) == 1,
            r is Some ==> exists|i: int|
                0 <= i < self.vista_jugadores().len() && !perdio_j(
                    #[trigger] self.vista_jugadores()[i],
                ) && r == Some(self.vista_jugadores()[i].id),
    {
        let mut encontrado: Option<u64> = None;
        let mut cuantos: usize = 0;
        let mut i: usize = 0;
        while i < self.jugadores.len()
            invariant
                0 <= i <= self.vista_jugadores().len(),
                cuantos as int == num_activos(self.vista_jugadores().subrange(0, i as int)),
                cuantos <= i,
                cuantos >= 1 <==> encontrado is Some,
                encontrado is Some ==> exists|k: int|
                    0 <= k < i && !perdio_j(#[trigger] self.vista_jugadores()[k]) && encontrado
                        == Some(self.vista_jugadores()[k].id),
            decreases self.vista_jugadores().len() - i,
        {
            let j = &self.jugadores[i];
            proof {
                let js = self.vista_jugadores();
                assert(js.subrange(0, i + 1).drop_last() =~= js.subrange(0, i as int));
                assert(js.subrange(0, i + 1).last() == js[i as int]);
            }
            if !(j.puntos > 100 || j.eliminado) {
                cuantos += 1;
                if encontrado.is_none() {
                    encontrado = Some(j.id);
                }
            }
            i += 1;
        }
        proof {
            assert(self.vista_jugadores().subrange(0, self.vista_jugadores().len() as int)
                =~= self.vista_jugadores());
        }
        if cuantos == 1 {
            encontrado
        } else {
            None
        }
    }

    /// ¿Le toca jugar al jugador con esa identidad?
    pub fn es_turno(&self, id: u64) -> (r: bool)
        requires
            self.bien_formada(),
        ensures
            r == (self.vista_jugadores()[self.vista_turno()].id == id),
    {
        self.jugadores[self.turno].id == id
    }

    /// Las cartas en mano del jugador.
    pub fn get_cartas(&self, id: u64) -> (r: Vec<Carta>)
        requires
            self.bien_formada(),
            self.es_jugador_activo(id),
        ensures
            r@ == self.vista_jugadores()[self.indice_de(id)].mano@,
    {
        let yo = match self.buscar(id) {
            Some(i) => i,
            None => {
                proof {
                    assert(false);
                }
                0
            },
        };
        copiar_cartas(&self.jugadores[yo].mano)
    }

    /// Tira una carta de la mano al tope de los descartes y pasa el turno al
    /// siguiente jugador en juego.
    #[verifier::loop_isolation(false)]
    #[verifier::rlimit(100)]
    pub fn tirar(&mut self, id: u64, carta: Carta) -> (r: Result<(), ErrorTirar>)
        requires
            old(self).bien_formada(),
            old(self).es_jugador_activo(id),
        ensures
            final(self).bien_formada(),
            ({
                let js = old(self).vista_jugadores();
                let yo = old(self).indice_de(id);
                if js[old(self).vista_turno()].id != id {
                    r == Err::<(), ErrorTirar>(ErrorTirar::NoEsTurno) && *final(self) == *old(self)
                } else if js[yo].mano@.len() < 8 {
                    r == Err::<(), ErrorTirar>(ErrorTirar::DebeLevantar) && *final(self) == *old(
                        self,
                    )
                } else if !js[yo].mano@.contains(carta) {
                    r == Err::<(), ErrorTirar>(ErrorTirar::NoTieneCarta) && *final(self) == *old(
                        self,
                    )
                } else {
                    let js2 = final(self).vista_jugadores();
                    &&& r == Ok::<(), ErrorTirar>(())
                    &&& js2.len() == js.len()
                    &&& (forall|i: int| 0 <= i < js.len() && i != yo ==> js2[i] == #[trigger] js[i])
                    &&& js2[yo].id == js[yo].id && js2[yo].puntos == js[yo].puntos && js2[yo].eliminado
                        == js[yo].eliminado && js2[yo].votos_expulsar@ == js[yo].votos_expulsar@
                    &&& js2[yo].mano@.len() == js[yo].mano@.len() - 1
                    &&& (forall|x: Carta|
                        cuenta(js[yo].mano@, x) == cuenta(js2[yo].mano@, x) + (if x == carta {
                            1nat
                        } else {
                            0nat
                        }))
                    &&& final(self).vista_descartes() == old(self).vista_descartes().push(carta)
                    &&& final(self).vista_mazo() == old(self).vista_mazo()
                    &&& final(self).vista_ultimo_levante() == old(self).vista_ultimo_levante()
                    &&& final(self).vista_inicia() == old(self).vista_inicia()
                    &&& final(self).vista_ultima_jugada() == old(self).vista_ultima_jugada()
                    &&& es_siguiente_activo(js2, old(self).vista_turno(), final(self).vista_turno())
                }
            }),
    {
        let yo = match self.buscar(id) {
            Some(i) => i,
            None => {
                proof {
                    assert(false);
                }
                0
            },
        };
        if self.jugadores[self.turno].id != id {
            return Err(ErrorTirar::NoEsTurno);
        }
        proof {
            let js = self.vista_jugadores();
            if yo as int != self.vista_turno() {
                assert(js[yo as int].id != js[self.vista_turno()].id);
            }
        }
        if self.jugadores[yo].mano.len() < 8 {
            return Err(ErrorTirar::DebeLevantar);
        }
        let pos = match buscar_carta(&self.jugadores[yo].mano, carta) {
            Some(p) => p,
            None => {
                return Err(ErrorTirar::NoTieneCarta);
            },
        };
        proof {
            assert(self.vista_jugadores()[yo as int].mano@.contains(carta)) by {
                assert(self.vista_jugadores()[yo as int].mano@[pos as int] == carta);
            }
        }
        let ghost js0 = self.jugadores@;
        let ghost mano0 = js0[yo as int].mano@;
        let quitada = self.jugadores[yo].mano.remove(pos);
        let ghost js1 = self.jugadores@;
        self.descartes.push(carta);
        proof {
            assert(quitada == carta);
            assert(js1 =~= js0.update(yo as int, js1[yo as int]));
            lema_manos_update(js0, yo as int, js1[yo as int]);
            lema_cuenta_remove(mano0, pos as int);
            lema_orden_remove(mano0, pos as int);
            assert(js1[yo as int].mano@ == mano0.remove(pos as int));
            assert(mano_bien(js1[yo as int].mano@)) by {
                lema_sin_duplicados_cuenta(mano0);
                assert forall|x: Carta| cuenta(js1[yo as int].mano@, x) <= 1 by {
                    assert(cuenta(mano0, x) == cuenta(mano0.remove(pos as int), x) + if mano0[
                        pos as int] == x {
                        1nat
                    } else {
                        0nat
                    });
                }
                lema_cuenta_sin_duplicados(js1[yo as int].mano@);
                assert(cartas_validas(js1[yo as int].mano@)) by {
                    mano0.remove_ensures(pos as int);
                    assert forall|q: int| 0 <= q < js1[yo as int].mano@.len() implies carta_valida(
                        #[trigger] js1[yo as int].mano@[q],
                    ) by {
                        if q < pos {
                            assert(js1[yo as int].mano@[q] == mano0[q]);
                        } else {
                            assert(js1[yo as int].mano@[q] == mano0[q + 1]);
                        }
                    }
                }
            }
            assert(num_activos(js1) >= 1) by {
                lema_manos_indice(js1, yo as int);
            }
        }
        let sig = proximo_activo(&self.jugadores, self.turno);
        let ghost turno0 = self.turno;
        self.turno = sig;
        proof {
            let js2 = self.vista_jugadores();
            let desc0 = old(self).vista_descartes();
            assert(self.vista_descartes() == desc0.push(carta));
            assert(self.conservacion()) by {
                assert forall|c: Carta|
                    self.cuenta_total(c) == (if carta_valida(c) {
                        1nat
                    } else {
                        0nat
                    }) by {
                    assert(old(self).cuenta_total(c) == if carta_valida(c) {
                        1nat
                    } else {
                        0nat
                    });
                    assert(cuenta(desc0.push(carta), c) == cuenta(desc0, c) + if c == carta {
                        1nat
                    } else {
                        0nat
                    }) by {
                        assert(desc0.push(carta).drop_last() =~= desc0);
                        assert(desc0.push(carta).last() == carta);
                    }
                    assert(cuenta_manos(js1, c) + cuenta(mano0, c) == cuenta_manos(js0, c)
                        + cuenta(js1[yo as int].mano@, c));
                    assert(cuenta(mano0, c) == cuenta(js1[yo as int].mano@, c) + if mano0[
                        pos as int] == c {
                        1nat
                    } else {
                        0nat
                    });
                }
            }
            assert(carta_valida(carta)) by {
                assert(mano0[pos as int] == carta);
            }
            assert(cartas_validas(self.vista_descartes())) by {
                assert forall|q: int| 0 <= q < self.vista_descartes().len() implies carta_valida(
                    #[trigger] self.vista_descartes()[q],
                ) by {
                    if q < desc0.len() {
                        assert(self.vista_descartes()[q] == desc0[q]);
                    } else {
                        assert(self.vista_descartes()[q] == carta);
                    }
                }
            }
            assert(self.bien_formada());
        }
        Ok(())
    }
}

} // verus!

verus! {

impl Partida {
    /// Levanta una carta del mazo o de los descartes y la mete en la mano.
    /// Levantar del mazo nunca falla estando en turno con siete cartas: si el
    /// mazo está vacío se recicla la pila de descartes (queda su tope) y se
    /// vuelve a mezclar.
    #[verifier::loop_isolation(false)]
    #[verifier::rlimit(100)]
    pub fn levantar(&mut self, id: u64, pila: PilaCartas) -> (r: Result<Carta, ErrorLevantar>)
        requires
            old(self).bien_formada(),
            old(self).es_jugador_activo(id),
        ensures
            final(self).bien_formada(),
            ({
                let js = old(self).vista_jugadores();
                let yo = old(self).indice_de(id);
                if js[old(self).vista_turno()].id != id {
                    r == Err::<Carta, ErrorLevantar>(ErrorLevantar::NoEsTurno) && *final(self)
                        == *old(self)
                } else if js[yo].mano@.len() >= 8 {
                    r == Err::<Carta, ErrorLevantar>(ErrorLevantar::DebeBajar) && *final(self)
                        == *old(self)
                } else if pila == PilaCartas::Descartes && old(self).vista_descartes().len() == 0 {
                    r == Err::<Carta, ErrorLevantar>(ErrorLevantar::NoHayDescartes) && *final(self)
                        == *old(self)
                } else {
                    let c = r->Ok_0;
                    let js2 = final(self).vista_jugadores();
                    &&& r is Ok
                    &&& js2.len() == js.len()
                    &&& (forall|i: int| 0 <= i < js.len() && i != yo ==> js2[i] == #[trigger] js[i])
                    &&& js2[yo].id == js[yo].id && js2[yo].puntos == js[yo].puntos
                        && js2[yo].eliminado == js[yo].eliminado && js2[yo].votos_expulsar@ == js[
                        yo].votos_expulsar@
                    &&& js2[yo].mano@.len() == js[yo].mano@.len() + 1
                    &&& (forall|x: Carta|
                        cuenta(js2[yo].mano@, x) == cuenta(js[yo].mano@, x) + (if x == c {
                            1nat
                        } else {
                            0nat
                        }))
                    &&& final(self).vista_turno() == old(self).vista_turno()
                    &&& final(self).vista_inicia() == old(self).vista_inicia()
                    &&& final(self).vista_ultima_jugada() == old(self).vista_ultima_jugada()
                    &&& final(self).vista_ultimo_levante() == Some(pila)
                    &&& (pila == PilaCartas::Descartes ==> c == old(self).vista_descartes().last()
                        && final(self).vista_descartes() == old(self).vista_descartes().drop_last()
                        && final(self).vista_mazo() == old(self).vista_mazo())
                    &&& (pila == PilaCartas::Mazo && old(self).vista_mazo().len() > 0 ==> c == old(
                        self,
                    ).vista_mazo().last() && final(self).vista_mazo() == old(
                        self,
                    ).vista_mazo().drop_last() && final(self).vista_descartes() == old(
                        self,
                    ).vista_descartes())
                    &&& (pila == PilaCartas::Mazo && old(self).vista_mazo().len() == 0 ==> final(self).vista_descartes().len() == 1 && final(self).vista_descartes()[0] == old(
                        self,
                    ).vista_descartes().last() && (
                    forall|x: Carta|
                        cuenta(final(self).vista_mazo(), x) + (if x == c {
                            1nat
                        } else {
                            0nat
                        }) == cuenta(old(self).vista_descartes().drop_last(), x)))
                }
            }),
    {
        let yo = match self.buscar(id) {
            Some(i) => i,
            None => {
                proof {
                    assert(false);
                }
                0
            },
        };
        if self.jugadores[self.turno].id != id {
            return Err(ErrorLevantar::NoEsTurno);
        }
        proof {
            let js = self.vista_jugadores();
            if yo as int != self.vista_turno() {
                assert(js[yo as int].id != js[self.vista_turno()].id);
            }
        }
        if self.jugadores[yo].mano.len() >= 8 {
            return Err(ErrorLevantar::DebeBajar);
        }
        let ghost js0 = self.jugadores@;
        let ghost mazo0 = self.mazo@;
        let ghost desc0 = self.descartes@;
        let c: Carta;
        match pila {
            PilaCartas::Descartes => {
                if self.descartes.len() == 0 {
                    return Err(ErrorLevantar::NoHayDescartes);
                }
                c = match self.descartes.pop() {
                    Some(x) => x,
                    None => {
                        proof {
                            assert(false);
                        }
                        Carta { num: 1, palo: Palo::Copa }
                    },
                };
                proof {
                    assert(desc0 == self.descartes@.push(c));
                    assert(self.descartes@ =~= desc0.drop_last());
                    assert(desc0.last() == c);
                    assert(carta_valida(c)) by {
                        assert(desc0[desc0.len() - 1] == c);
                    }
                    assert(cuenta(mazo0, c) + cuenta(desc0, c) >= 1) by {
                        assert(cuenta(desc0, c) == cuenta(self.descartes@, c) + 1);
                    }
                }
            },
            PilaCartas::Mazo => {
                if self.mazo.len() == 0 {
                    proof {
                        let js = self.vista_jugadores();
                        assert(forall|i: int|
                            0 <= i < js.len() ==> (#[trigger] js[i]).mano@.len() <= 8);
                        lema_largo_cota(js);
                        assert(self.descartes@.len() >= 48 - 8 * 4);
                    }
                    let tope = match self.descartes.pop() {
                        Some(x) => x,
                        None => {
                            proof {
                                assert(false);
                            }
                            Carta { num: 1, palo: Palo::Copa }
                        },
                    };
                    proof {
                        assert(desc0 == self.descartes@.push(tope));
                        assert(self.descartes@ =~= desc0.drop_last());
                        assert(desc0.last() == tope);
                    }
                    let ghost resto0 = self.descartes@;
                    while self.descartes.len() > 0
                        invariant
                            self.jugadores@ == js0,
                            self.pila_ultimo_levante == old(self).vista_ultimo_levante(),
                            self.turno == old(self).vista_turno(),
                            self.inicia_prox_ronda == old(self).vista_inicia(),
                self.ultima_jugada == old(self).vista_ultima_jugada(),
                            forall|x: Carta|
                                #![trigger cuenta(self.mazo@, x)]
                                cuenta(self.mazo@, x) + cuenta(self.descartes@, x) == cuenta(
                                    resto0,
                                    x,
                                ),
                            self.mazo@.len() + self.descartes@.len() == resto0.len(),
                            cartas_validas(self.mazo@),
                            cartas_validas(self.descartes@),
                        decreases self.descartes@.len(),
                    {
                        let ghost m0 = self.mazo@;
                        let ghost d0 = self.descartes@;
                        let x = match self.descartes.pop() {
                            Some(x) => x,
                            None => {
                                proof {
                                    assert(false);
                                }
                                Carta { num: 1, palo: Palo::Copa }
                            },
                        };
                        self.mazo.push(x);
                        proof {
                            assert(d0 == self.descartes@.push(x));
                            assert(self.descartes@ =~= d0.drop_last());
                            assert(d0.last() == x);
                            assert(self.mazo@.drop_last() =~= m0);
                            assert(self.mazo@.last() == x);
                            assert(carta_valida(x)) by {
                                assert(d0[d0.len() - 1] == x);
                            }
                            assert forall|q: Carta|
                                cuenta(self.mazo@, q) + cuenta(self.descartes@, q) == cuenta(
                                    resto0,
                                    q,
                                ) by {
                                assert(cuenta(m0, q) + cuenta(d0, q) == cuenta(resto0, q));
                            }
                            assert(cartas_validas(self.mazo@)) by {
                                assert forall|q: int|
                                    0 <= q < self.mazo@.len() implies carta_valida(
                                    #[trigger] self.mazo@[q],
                                ) by {
                                    if q < m0.len() {
                                        assert(self.mazo@[q] == m0[q]);
                                    }
                                }
                            }
                            assert(cartas_validas(self.descartes@)) by {
                                assert forall|q: int|
                                    0 <= q < self.descartes@.len() implies carta_valida(
                                    #[trigger] self.descartes@[q],
                                ) by {
                                    assert(self.descartes@[q] == d0[q]);
                                }
                            }
                        }
                    }
                    let ghost fin_mover = self.descartes@;
                    self.descartes.push(tope);
                    let ghost mezclado0 = self.mazo@;
                    mezclar(&mut self.mazo);
                    proof {
                        assert(fin_mover.len() == 0);
                        assert(self.descartes@ =~= seq![tope]);
                        assert forall|q: Carta|
                            cuenta(self.mazo@, q) + cuenta(#[trigger] self.descartes@, q)
                                == cuenta(desc0, q) by {
                            assert(cuenta(self.mazo@, q) == cuenta(mezclado0, q));
                            assert(cuenta(mezclado0, q) + cuenta(fin_mover, q) == cuenta(
                                resto0,
                                q,
                            ));
                            assert(cuenta(fin_mover, q) == 0);
                            assert(cuenta(self.descartes@, q) == if tope == q {
                                1nat
                            } else {
                                0nat
                            }) by {
                                assert(self.descartes@.drop_last().len() == 0);
                                assert(cuenta(self.descartes@.drop_last(), q) == 0);
                                assert(self.descartes@.last() == tope);
                            }
                            assert(cuenta(desc0, q) == cuenta(desc0.drop_last(), q) + if desc0.last() == q {
                                1nat
                            } else {
                                0nat
                            });
                            assert(resto0 == desc0.drop_last());
                        }
                        assert(self.mazo@.len() == mezclado0.len());
                        assert(self.mazo@.len() == resto0.len());
                        assert(resto0.len() >= 48 - 8 * 4 - 1);
                        assert(cartas_validas(self.mazo@)) by {
                            lema_cuenta_contiene(self.mazo@);
                            lema_cuenta_contiene(mezclado0);
                            assert forall|q: int| 0 <= q < self.mazo@.len() implies carta_valida(
                                #[trigger] self.mazo@[q],
                            ) by {
                                assert(self.mazo@.contains(self.mazo@[q]));
                                assert(cuenta(self.mazo@, self.mazo@[q]) > 0);
                                assert(cuenta(mezclado0, self.mazo@[q]) > 0);
                                assert(mezclado0.contains(self.mazo@[q]));
                                let w = choose|w: int|
                                    0 <= w < mezclado0.len() && mezclado0[w] == self.mazo@[q];
                            }
                        }
                    }
                }
                let ghost antes_pop = self.mazo@;
                let ghost desc_previo = self.descartes@;
                c = match self.mazo.pop() {
                    Some(x) => x,
                    None => {
                        proof {
                            assert(false);
                        }
                        Carta { num: 1, palo: Palo::Copa }
                    },
                };
                proof {
                    assert(antes_pop == self.mazo@.push(c));
                    assert(self.mazo@ =~= antes_pop.drop_last());
                    assert(antes_pop.last() == c);
                    assert(cuenta(antes_pop, c) == cuenta(self.mazo@, c) + 1);
                    assert(carta_valida(c)) by {
                        assert(antes_pop[antes_pop.len() - 1] == c);
                    }
                    if mazo0.len() > 0 {
                        assert(antes_pop == mazo0);
                        assert(cuenta(mazo0, c) + cuenta(desc0, c) >= 1);
                    } else {
                        assert forall|q: Carta|
                            cuenta(self.mazo@, q) + (if q == c {
                                1nat
                            } else {
                                0nat
                            }) + cuenta(#[trigger] self.descartes@, q) == cuenta(desc0, q) by {
                            assert(cuenta(antes_pop, q) == cuenta(self.mazo@, q) + if c == q {
                                1nat
                            } else {
                                0nat
                            });
                            assert(cuenta(antes_pop, q) + cuenta(desc_previo, q) == cuenta(
                                desc0,
                                q,
                            ));
                        }
                        assert(cuenta(mazo0, c) + cuenta(desc0, c) >= 1) by {
                            assert(cuenta(self.mazo@, c) + 1 + cuenta(self.descartes@, c)
                                == cuenta(desc0, c));
                        }
                    }
                }
            },
        }
        proof {
            // la carta levantada no puede estar ya en la mano
            assert(cuenta(js0[yo as int].mano@, c) == 0) by {
                lema_manos_indice(js0, yo as int);
                assert(old(self).cuenta_total(c) == 1);
                assert(cuenta(mazo0, c) + cuenta(desc0, c) >= 1);
            }
        }
        proof {
            assert(js0[yo as int].mano@.len() < 8);
        }
        insertar_en_mano(&mut self.jugadores[yo].mano, c);
        self.pila_ultimo_levante = Some(pila);
        proof {
            let js2 = self.vista_jugadores();
            assert(js2 =~= js0.update(yo as int, js2[yo as int]));
            lema_manos_update(js0, yo as int, js2[yo as int]);
            assert(self.conservacion()) by {
                assert forall|q: Carta|
                    self.cuenta_total(q) == (if carta_valida(q) {
                        1nat
                    } else {
                        0nat
                    }) by {
                    assert(old(self).cuenta_total(q) == if carta_valida(q) {
                        1nat
                    } else {
                        0nat
                    });
                    assert(cuenta_manos(js2, q) + cuenta(js0[yo as int].mano@, q) == cuenta_manos(
                        js0,
                        q,
                    ) + cuenta(js2[yo as int].mano@, q));
                    if pila == PilaCartas::Descartes {
                        assert(cuenta(desc0, q) == cuenta(self.descartes@, q) + if q == c {
                            1nat
                        } else {
                            0nat
                        });
                    } else if mazo0.len() > 0 {
                        assert(mazo0 == self.mazo@.push(c));
                        assert(self.mazo@ =~= mazo0.drop_last());
                        assert(cuenta(mazo0, q) == cuenta(self.mazo@, q) + if q == c {
                            1nat
                        } else {
                            0nat
                        });
                    } else {
                        assert(cuenta(self.mazo@, q) + (if q == c {
                            1nat
                        } else {
                            0nat
                        }) + cuenta(self.descartes@, q) == cuenta(desc0, q)) by {
                            assert(cuenta(desc0, q) == cuenta(desc0.drop_last(), q) + if q == c
                                || q != c {
                                if desc0.last() == q {
                                    1nat
                                } else {
                                    0nat
                                }
                            } else {
                                0nat
                            });
                        }
                    }
                }
            }
            assert(self.bien_formada());
            if pila == PilaCartas::Mazo && mazo0.len() == 0 {
                assert(self.vista_descartes().len() == 1 && self.vista_descartes()[0]
                    == desc0.last());
                assert forall|x: Carta|
                    cuenta(self.vista_mazo(), x) + (if x == c {
                        1nat
                    } else {
                        0nat
                    }) == cuenta(desc0.drop_last(), x) by {
                    assert(cuenta(self.mazo@, x) + (if x == c {
                        1nat
                    } else {
                        0nat
                    }) + cuenta(self.descartes@, x) == cuenta(desc0, x));
                    assert(cuenta(desc0, x) == cuenta(desc0.drop_last(), x) + (if desc0.last()
                        == x {
                        1nat
                    } else {
                        0nat
                    }));
                    assert(cuenta(self.descartes@, x) == (if desc0.last() == x {
                        1nat
                    } else {
                        0nat
                    })) by {
                        assert(self.descartes@.drop_last().len() == 0);
                        assert(cuenta(self.descartes@.drop_last(), x) == 0);
                        assert(self.descartes@.last() == desc0.last());
                    }
                }
            }
        }
        Ok(c)
    }
}

} // verus!

verus! {

/// ¿Contiene el vector a la identidad?
fn contiene_id(v: &Vec<u64>, id: u64) -> (r: bool)
    ensures
        r == v@.contains(id),
{
    let mut i: usize = 0;
    while i < v.len()
        invariant
            0 <= i <= v@.len(),
            forall|k: int| 0 <= k < i ==> v@[k] != id,
        decreases v@.len() - i,
    {
        if v[i] == id {
            assert(v@[i as int] == id);
            return true;
        }
        i += 1;
    }
    false
}

impl Partida {
    /// Devuelve al mazo las cartas de un jugador que acaba de quedar fuera,
    /// mezcla, y si era su turno se lo pasa al siguiente jugador en juego.
    #[verifier::loop_isolation(false)]
    #[verifier::rlimit(100)]
    fn sacar_de_juego(&mut self, idx: usize)
        requires
            ({
                let js = old(self).vista_jugadores();
                &&& 2 <= js.len() <= 4
                &&& 0 <= old(self).vista_turno() < js.len()
                &&& 0 <= old(self).vista_inicia() < js.len()
                &&& (forall|i: int, k: int|
                    0 <= i < k < js.len() ==> (#[trigger] js[i]).id != (#[trigger] js[k]).id)
                &&& (forall|i: int| 0 <= i < js.len() ==> mano_bien((#[trigger] js[i]).mano@))
                &&& (forall|i: int|
                    0 <= i < js.len() ==> 0 <= (#[trigger] js[i]).puntos <= 1196 && js[i].votos_expulsar@.no_duplicates())
                &&& (forall|i: int|
                    0 <= i < js.len() && i != idx ==> (if perdio_j(#[trigger] js[i]) {
                        js[i].mano@.len() == 0
                    } else {
                        js[i].mano@.len() == 7 || (i == old(self).vista_turno() && js[i].mano@.len()
                            == 8)
                    }))
                &&& cartas_validas(old(self).vista_mazo())
                &&& cartas_validas(old(self).vista_descartes())
                &&& old(self).conservacion()
                &&& old(self).vista_mazo().len() + old(self).vista_descartes().len() + largo_manos(
                    js,
                ) == 48
                &&& (idx as int) < js.len()
                &&& perdio_j(js[idx as int])
                &&& (num_activos(js) >= 1 ==> (!perdio_j(js[old(self).vista_turno()]) || old(
                    self,
                ).vista_turno() == idx as int))
            }),
        ensures
            final(self).bien_formada(),
            ({
                let js = old(self).vista_jugadores();
                let js2 = final(self).vista_jugadores();
                &&& js2.len() == js.len()
                &&& (forall|i: int| 0 <= i < js.len() && i != idx ==> js2[i] == #[trigger] js[i])
                &&& js2[idx as int].id == js[idx as int].id && js2[idx as int].puntos == js[
                    idx as int].puntos && js2[idx as int].eliminado == js[idx as int].eliminado
                    && js2[idx as int].votos_expulsar@ == js[idx as int].votos_expulsar@
                &&& js2[idx as int].mano@.len() == 0
                &&& (forall|c: Carta|
                    cuenta(final(self).vista_mazo(), c) == cuenta(old(self).vista_mazo(), c)
                        + cuenta(js[idx as int].mano@, c))
                &&& final(self).vista_descartes() == old(self).vista_descartes()
                &&& final(self).vista_ultimo_levante() == old(self).vista_ultimo_levante()
                &&& final(self).vista_inicia() == old(self).vista_inicia()
                &&& final(self).vista_ultima_jugada() == old(self).vista_ultima_jugada()
                &&& (old(self).vista_turno() != idx as int ==> final(self).vista_turno() == old(
                    self,
                ).vista_turno())
                &&& (old(self).vista_turno() == idx as int && num_activos(js) >= 1
                    ==> es_siguiente_activo(js2, old(self).vista_turno(), final(self).vista_turno()))
                &&& (num_activos(js) == 0 ==> final(self).vista_turno() == old(self).vista_turno())
            }),
    {
        let ghost js0 = self.jugadores@;
        let vieja = {
            let j = &self.jugadores[idx];
            copiar_cartas(&j.mano)
        };
        self.jugadores[idx].mano = Vec::new();
        let ghost js1 = self.jugadores@;
        proof {
            assert(js1 =~= js0.update(idx as int, js1[idx as int]));
            lema_manos_update(js0, idx as int, js1[idx as int]);
        }
        let mut k: usize = 0;
        while k < vieja.len()
            invariant
                0 <= k <= vieja@.len(),
                self.jugadores@ == js1,
                self.descartes@ == old(self).vista_descartes(),
                self.pila_ultimo_levante == old(self).vista_ultimo_levante(),
                self.turno == old(self).vista_turno(),
                self.inicia_prox_ronda == old(self).vista_inicia(),
                self.ultima_jugada == old(self).vista_ultima_jugada(),
                cartas_validas(self.mazo@),
                forall|c: Carta|
                    #![trigger cuenta(self.mazo@, c)]
                    cuenta(self.mazo@, c) == cuenta(old(self).vista_mazo(), c) + cuenta(
                        vieja@.subrange(0, k as int),
                        c,
                    ),
                self.mazo@.len() == old(self).vista_mazo().len() + k,
            decreases vieja@.len() - k,
        {
            let ghost m0 = self.mazo@;
            let c = vieja[k];
            self.mazo.push(c);
            proof {
                assert(self.mazo@.drop_last() =~= m0);
                assert(self.mazo@.last() == c);
                assert(carta_valida(c)) by {
                    assert(vieja@[k as int] == js0[idx as int].mano@[k as int]);
                }
                assert(cartas_validas(self.mazo@)) by {
                    assert forall|q: int| 0 <= q < self.mazo@.len() implies carta_valida(
                        #[trigger] self.mazo@[q],
                    ) by {
                        if q < m0.len() {
                            assert(self.mazo@[q] == m0[q]);
                        }
                    }
                }
                assert forall|q: Carta|
                    cuenta(self.mazo@, q) == cuenta(old(self).vista_mazo(), q) + cuenta(
                        vieja@.subrange(0, k + 1),
                        q,
                    ) by {
                    assert(cuenta(self.mazo@, q) == cuenta(m0, q) + if c == q {
                        1nat
                    } else {
                        0nat
                    });
                    assert(vieja@.subrange(0, k + 1).drop_last() =~= vieja@.subrange(0, k as int));
                    assert(vieja@.subrange(0, k + 1).last() == c);
                }
            }
            k += 1;
        }
        proof {
            assert(vieja@.subrange(0, vieja@.len() as int) =~= vieja@);
        }
        let ghost previo = self.mazo@;
        mezclar(&mut self.mazo);
        proof {
            assert(cartas_validas(self.mazo@)) by {
                lema_cuenta_contiene(self.mazo@);
                lema_cuenta_contiene(previo);
                assert forall|q: int| 0 <= q < self.mazo@.len() implies carta_valida(
                    #[trigger] self.mazo@[q],
                ) by {
                    assert(self.mazo@.contains(self.mazo@[q]));
                    assert(cuenta(self.mazo@, self.mazo@[q]) > 0);
                    assert(cuenta(previo, self.mazo@[q]) > 0);
                    assert(previo.contains(self.mazo@[q]));
                    let w = choose|w: int| 0 <= w < previo.len() && previo[w] == self.mazo@[q];
                }
            }
            assert forall|c: Carta|
                cuenta(self.mazo@, c) == cuenta(old(self).vista_mazo(), c) + cuenta(
                    js0[idx as int].mano@,
                    c,
                ) by {
                assert(cuenta(self.mazo@, c) == cuenta(previo, c));
            }
        }
        if self.jugadores[self.turno].puntos > 100 || self.jugadores[self.turno].eliminado {
            let cuantos = self.jugadores_en_juego();
            if cuantos >= 1 {
                proof {
                    lema_activos_pareado(js1, js0);
                }
                let sig = proximo_activo(&self.jugadores, self.turno);
                self.turno = sig;
            }
        }
        proof {
            let js2 = self.vista_jugadores();
            lema_activos_pareado(js1, js0);
            lema_activos_cero(js1);
            assert(self.conservacion()) by {
                assert forall|c: Carta|
                    self.cuenta_total(c) == (if carta_valida(c) {
                        1nat
                    } else {
                        0nat
                    }) by {
                    assert(old(self).cuenta_total(c) == if carta_valida(c) {
                        1nat
                    } else {
                        0nat
                    });
                    assert(cuenta(self.mazo@, c) == cuenta(old(self).vista_mazo(), c) + cuenta(
                        js0[idx as int].mano@,
                        c,
                    ));
                    assert(cuenta_manos(js1, c) + cuenta(js0[idx as int].mano@, c) == cuenta_manos(
                        js0,
                        c,
                    ) + cuenta(js1[idx as int].mano@, c));
                    assert(cuenta(js1[idx as int].mano@, c) == 0);
                }
            }
            assert(self.bien_formada()) by {
                if num_activos(js2) >= 1 {
                    assert(!perdio_j(js2[self.vista_turno()]));
                }
            }
        }
    }
}

} // verus!

verus! {

impl Partida {
    /// El jugador `id` vota por expulsar a `a`. Cuando estrictamente más de
    /// la mitad de los jugadores en juego votaron contra `a`, queda
    /// eliminado: sus cartas vuelven al mazo (que se mezcla) y, si era su
    /// turno, el turno pasa al siguiente. Devuelve si esta votación lo
    /// eliminó.
    #[verifier::rlimit(100)]
    pub fn votar_expulsar_a(&mut self, id: u64, a: u64) -> (r: Result<bool, ErrorExpulsar>)
        requires
            old(self).bien_formada(),
            old(self).es_jugador_activo(id),
        ensures
            final(self).bien_formada(),
            ({
                let js = old(self).vista_jugadores();
                if !old(self).es_jugador_activo(a) {
                    r == Err::<bool, ErrorExpulsar>(ErrorExpulsar::NoEstaEnPartida) && *final(self)
                        == *old(self)
                } else {
                    let v = old(self).indice_de(a);
                    let votos2 = if js[v].votos_expulsar@.contains(id) {
                        js[v].votos_expulsar@
                    } else {
                        js[v].votos_expulsar@.push(id)
                    };
                    let echado = votos2.len() > num_activos(js) / 2;
                    let js2 = final(self).vista_jugadores();
                    &&& r == Ok::<bool, ErrorExpulsar>(echado)
                    &&& js2.len() == js.len()
                    &&& (forall|i: int| 0 <= i < js.len() && i != v ==> js2[i] == #[trigger] js[i])
                    &&& js2[v].id == js[v].id && js2[v].puntos == js[v].puntos
                    &&& js2[v].votos_expulsar@ == votos2
                    &&& js2[v].eliminado == echado
                    &&& final(self).vista_descartes() == old(self).vista_descartes()
                    &&& final(self).vista_ultimo_levante() == old(self).vista_ultimo_levante()
                    &&& final(self).vista_inicia() == old(self).vista_inicia()
                    &&& final(self).vista_ultima_jugada() == old(self).vista_ultima_jugada()
                    &&& (!echado ==> js2[v].mano@ == js[v].mano@ && final(self).vista_mazo() == old(
                        self,
                    ).vista_mazo() && final(self).vista_turno() == old(self).vista_turno())
                    &&& (echado ==> js2[v].mano@.len() == 0 && (forall|c: Carta|
                        cuenta(final(self).vista_mazo(), c) == cuenta(old(self).vista_mazo(), c)
                            + cuenta(js[v].mano@, c)))
                    &&& (echado && old(self).vista_turno() != v ==> final(self).vista_turno()
                        == old(self).vista_turno())
                    &&& (echado && old(self).vista_turno() == v && num_activos(js2) >= 1
                        ==> es_siguiente_activo(js2, old(self).vista_turno(), final(self).vista_turno()))
                }
            }),
    {
        let restantes = self.jugadores_en_juego();
        let victima = match self.buscar(a) {
            Some(v) => v,
            None => {
                return Err(ErrorExpulsar::NoEstaEnPartida);
            },
        };
        let ghost js0 = self.jugadores@;
        let ya_voto = {
            let j = &self.jugadores[victima];
            contiene_id(&j.votos_expulsar, id)
        };
        if !ya_voto {
            self.jugadores[victima].votos_expulsar.push(id);
        }
        let ghost js1 = self.jugadores@;
        proof {
            assert(js1 =~= js0.update(victima as int, js1[victima as int]));
            lema_manos_update(js0, victima as int, js1[victima as int]);
            assert(js1[victima as int].votos_expulsar@.no_duplicates()) by {
                let v0 = js0[victima as int].votos_expulsar@;
                if !ya_voto {
                    assert(js1[victima as int].votos_expulsar@ == v0.push(id));
                    assert forall|x: int, y: int|
                        0 <= x < y < v0.push(id).len() implies v0.push(id)[x] != v0.push(
                        id,
                    )[y] by {
                        if y < v0.len() {
                            assert(v0.push(id)[x] == v0[x] && v0.push(id)[y] == v0[y]);
                        } else {
                            assert(v0.push(id)[y] == id);
                            assert(v0.push(id)[x] == v0[x]);
                            assert(!v0.contains(id));
                        }
                    }
                }
            }
        }
        let expulsado = {
            let j = &self.jugadores[victima];
            j.votos_expulsar.len() > restantes / 2
        };
        if expulsado {
            self.jugadores[victima].eliminado = true;
            let ghost js2 = self.jugadores@;
            proof {
                assert(js2 =~= js1.update(victima as int, js2[victima as int]));
                lema_manos_update(js1, victima as int, js2[victima as int]);
                assert(self.conservacion()) by {
                    assert forall|c: Carta|
                        self.cuenta_total(c) == (if carta_valida(c) {
                            1nat
                        } else {
                            0nat
                        }) by {
                        assert(old(self).cuenta_total(c) == if carta_valida(c) {
                            1nat
                        } else {
                            0nat
                        });
                        assert(cuenta(js2[victima as int].mano@, c) == cuenta(
                            js0[victima as int].mano@,
                            c,
                        ));
                    }
                }
            }
            self.sacar_de_juego(victima);
            proof {
                assert forall|i: int|
                    0 <= i < js0.len() && i != victima implies self.vista_jugadores()[i]
                    == #[trigger] js0[i] by {
                    assert(self.vista_jugadores()[i] == js2[i]);
                    assert(js2[i] == js1[i]);
                    assert(js1[i] == js0[i]);
                }
                assert(num_activos(self.vista_jugadores()) == num_activos(js2)) by {
                    assert forall|i: int|
                        0 <= i < js2.len() implies perdio_j(#[trigger] self.vista_jugadores()[i])
                        == perdio_j(js2[i]) by {
                        if i != victima {
                            assert(self.vista_jugadores()[i] == js2[i]);
                        }
                    }
                    lema_activos_pareado(self.vista_jugadores(), js2);
                }
            }
        } else {
            proof {
                assert(self.conservacion()) by {
                    assert forall|c: Carta|
                        self.cuenta_total(c) == (if carta_valida(c) {
                            1nat
                        } else {
                            0nat
                        }) by {
                        assert(old(self).cuenta_total(c) == if carta_valida(c) {
                            1nat
                        } else {
                            0nat
                        });
                        assert(cuenta(js1[victima as int].mano@, c) == cuenta(
                            js0[victima as int].mano@,
                            c,
                        ));
                    }
                }
                assert(self.bien_formada());
            }
        }
        Ok(expulsado)
    }

    /// El jugador abandona la partida: queda eliminado, sus cartas vuelven
    /// al mazo (que se mezcla) y, si era su turno, el turno pasa al
    /// siguiente jugador en juego.
    #[verifier::rlimit(100)]
    pub fn abandonar(&mut self, id: u64)
        requires
            old(self).bien_formada(),
            old(self).es_jugador_activo(id),
        ensures
            final(self).bien_formada(),
            ({
                let js = old(self).vista_jugadores();
                let yo = old(self).indice_de(id);
                let js2 = final(self).vista_jugadores();
                &&& js2.len() == js.len()
                &&& (forall|i: int| 0 <= i < js.len() && i != yo ==> js2[i] == #[trigger] js[i])
                &&& js2[yo].id == js[yo].id && js2[yo].puntos == js[yo].puntos
                    && js2[yo].votos_expulsar@ == js[yo].votos_expulsar@
                &&& js2[yo].eliminado
                &&& js2[yo].mano@.len() == 0
                &&& (forall|c: Carta|
                    cuenta(final(self).vista_mazo(), c) == cuenta(old(self).vista_mazo(), c)
                        + cuenta(js[yo].mano@, c))
                &&& final(self).vista_descartes() == old(self).vista_descartes()
                &&& final(self).vista_ultimo_levante() == old(self).vista_ultimo_levante()
                &&& final(self).vista_inicia() == old(self).vista_inicia()
                &&& final(self).vista_ultima_jugada() == old(self).vista_ultima_jugada()
                &&& (old(self).vista_turno() != yo ==> final(self).vista_turno() == old(
                    self,
                ).vista_turno())
                &&& (old(self).vista_turno() == yo && num_activos(js2) >= 1
                    ==> es_siguiente_activo(js2, old(self).vista_turno(), final(self).vista_turno()))
            }),
    {
        let yo = match self.buscar(id) {
            Some(i) => i,
            None => {
                proof {
                    assert(false);
                }
                0
            },
        };
        let ghost js0 = self.jugadores@;
        self.jugadores[yo].eliminado = true;
        let ghost js1 = self.jugadores@;
        proof {
            assert(js1 =~= js0.update(yo as int, js1[yo as int]));
            lema_manos_update(js0, yo as int, js1[yo as int]);
            assert(self.conservacion()) by {
                assert forall|c: Carta|
                    self.cuenta_total(c) == (if carta_valida(c) {
                        1nat
                    } else {
                        0nat
                    }) by {
                    assert(old(self).cuenta_total(c) == if carta_valida(c) {
                        1nat
                    } else {
                        0nat
                    });
                    assert(cuenta(js1[yo as int].mano@, c) == cuenta(js0[yo as int].mano@, c));
                }
            }
        }
        self.sacar_de_juego(yo);
        proof {
            assert forall|i: int|
                0 <= i < js0.len() && i != yo implies self.vista_jugadores()[i] == #[trigger] js0[
                i] by {
                assert(self.vista_jugadores()[i] == js1[i]);
                assert(js1[i] == js0[i]);
            }
            assert(num_activos(self.vista_jugadores()) == num_activos(js1)) by {
                assert forall|i: int|
                    0 <= i < js1.len() implies perdio_j(#[trigger] self.vista_jugadores()[i])
                    == perdio_j(js1[i]) by {
                    if i != yo {
                        assert(self.vista_jugadores()[i] == js1[i]);
                    }
                }
                lema_activos_pareado(self.vista_jugadores(), js1);
            }
        }
    }
}

} // verus!

verus! {

/// Lo que se informa de cada jugador al cerrarse una ronda.
pub struct ResultadoFinalRonda {
    pub jugador: u64,
    pub puntos_sumados: i16,
    pub puntos_total: i16,
    pub perdio: bool,
    pub chinchon: bool,
    pub juegos: Vec<Vec<Carta>>,
    pub sobrantes: Vec<Carta>,
}

/// ¿Puede cerrarse la ronda con esta mano? Hace falta alguna selección de
/// juegos que deje a lo sumo 5 puntos sobrantes y que no lleve el puntaje
/// acumulado más allá de 100.
pub open spec fn puede_cerrar(mano: Seq<Carta>, puntos: int) -> bool {
    exists|sel: Seq<Seq<Carta>>|
        #[trigger] seleccion_de_mano(sel, mano) && suma_nums(mano) - peso_sel(sel) <= 5 && puntos
            + (suma_nums(mano) - peso_sel(sel)) <= 100
}

/// El resultado de ronda correcto para el jugador `j` con la mano `mano`:
/// sus juegos son una selección válida de peso máximo (y, a igual peso, con
/// la menor cantidad de juegos), las sobrantes son las cartas que quedaron
/// fuera, y los puntos siguen la regla del corte: el cortador con cero
/// sobrantes anota -10 (chinchón si además le bastó un solo juego), y con el
/// bono de chinchón cada otro jugador carga 1000 puntos más y pierde.
pub open spec fn resultado_correcto(
    r: ResultadoFinalRonda,
    j: DatosJugador,
    mano: Seq<Carta>,
    es_cortador: bool,
    bono: bool,
) -> bool {
    let sel = vista2(r.juegos@);
    let base = suma_nums(mano) - peso_sel(sel);
    let ajustado: int = if es_cortador && base == 0 {
        -10
    } else {
        base
    };
    let extra: int = if bono && !es_cortador {
        1000
    } else {
        0
    };
    let tope: int = if j.puntos + ajustado >= 0 {
        j.puntos + ajustado
    } else {
        0
    };
    &&& r.jugador == j.id
    &&& seleccion_de_mano(sel, mano)
    &&& (forall|sel2: Seq<Seq<Carta>>|
        seleccion_de_mano(sel2, mano) ==> peso_sel(sel2) <= peso_sel(sel))
    &&& (forall|sel2: Seq<Seq<Carta>>|
        seleccion_de_mano(sel2, mano) && peso_sel(sel2) == peso_sel(sel) ==> sel.len()
            <= sel2.len())
    &&& r.sobrantes@ == mano.filter(|c: Carta| !en_sel(c, sel))
    &&& r.puntos_sumados as int == ajustado + extra
    &&& r.chinchon == (es_cortador && base == 0 && sel.len() == 1)
    &&& r.puntos_total as int == tope + extra
    &&& r.perdio == (j.puntos + ajustado > 100 || j.eliminado || (bono && !es_cortador))
}

/// Las posiciones `desde, desde+1, ...` dando la vuelta al final.
pub open spec fn orden_rotado(desde: int, len: int) -> Seq<int> {
    Seq::new(len as nat, |d: int| pos_girada(desde, d, len))
}

/// Los índices de los jugadores en juego, empezando por `desde` y dando la
/// vuelta.
pub open spec fn indices_activos(js: Seq<DatosJugador>, desde: int) -> Seq<int> {
    orden_rotado(desde, js.len() as int).filter(|i: int| 0 <= i < js.len() && !perdio_j(js[i]))
}

impl Partida {
    /// ¿Podría el jugador cerrar la ronda soltando la carta `con`? Se fija
    /// si, quitada esa carta de la mano (si la tiene), alguna selección de
    /// juegos deja a lo sumo 5 puntos y no lo hace pasar de 100.
    pub fn puede_cortar(&self, id: u64, con: Carta) -> (r: bool)
        requires
            self.bien_formada(),
            self.es_jugador_activo(id),
        ensures
            r == puede_cerrar(
                self.vista_jugadores()[self.indice_de(id)].mano@.remove_value(con),
                self.vista_jugadores()[self.indice_de(id)].puntos as int,
            ),
    {
        let yo = match self.buscar(id) {
            Some(i) => i,
            None => {
                proof {
                    assert(false);
                }
                0
            },
        };
        let ghost mano0 = self.vista_jugadores()[yo as int].mano@;
        let mut mano = {
            let j = &self.jugadores[yo];
            copiar_cartas(&j.mano)
        };
        proof {
            assert(mano@ == mano0);
        }
        match buscar_carta(&mano, con) {
            Some(pos) => {
                mano.remove(pos);
                proof {
                    mano0.index_of_first_ensures(con);
                    lema_sin_duplicados_cuenta(mano0);
                    let iof = mano0.index_of_first(con);
                    assert(mano0.contains(con)) by {
                        assert(mano0[pos as int] == con);
                    }
                    assert(iof is Some);
                    assert(iof->0 == pos as int) by {
                        if iof->0 < pos {
                            assert(mano0[iof->0] != con);
                        }
                        if iof->0 > pos {
                            assert(mano0[pos as int] != con);
                        }
                    }
                    assert(mano@ == mano0.remove_value(con));
                }
            },
            None => {
                proof {
                    mano0.index_of_first_ensures(con);
                    if mano0.index_of_first(con) is Some {
                        assert(mano0.contains(con));
                    }
                    assert(mano@ == mano0.remove_value(con));
                }
            },
        }
        let ghost eval = mano@;
        proof {
            lema_mano_menos_carta(mano0, eval, con);
        }
        let puntos_j = {
            let j = &self.jugadores[yo];
            j.puntos
        };
        let rj = formar_juegos(mano);
        let p = rj.0;
        let juegos = rj.1;
        let acepta = p <= 5 && puntos_j + p <= 100;
        proof {
            let sel0 = vista2(juegos@);
            if acepta {
                assert(seleccion_de_mano(sel0, eval) && suma_nums(eval) - peso_sel(sel0) <= 5
                    && puntos_j + (suma_nums(eval) - peso_sel(sel0)) <= 100);
                assert(puede_cerrar(eval, puntos_j as int));
            } else {
                assert(!puede_cerrar(eval, puntos_j as int)) by {
                    if puede_cerrar(eval, puntos_j as int) {
                        let sel = choose|sel: Seq<Seq<Carta>>|
                            #[trigger] seleccion_de_mano(sel, eval) && suma_nums(eval) - peso_sel(
                                sel,
                            ) <= 5 && puntos_j + (suma_nums(eval) - peso_sel(sel)) <= 100;
                        assert(peso_sel(sel) <= peso_sel(sel0));
                    }
                }
            }
        }
        acepta
    }
}

/// La mano sin una carta sigue siendo una mano bien llevada.
proof fn lema_mano_menos_carta(mano0: Seq<Carta>, eval: Seq<Carta>, con: Carta)
    requires
        mano_bien(mano0),
        eval == mano0.remove_value(con),
    ensures
        mano_bien(eval),
        eval.len() <= mano0.len(),
{
    mano0.index_of_first_ensures(con);
    let iof = mano0.index_of_first(con);
    if iof is Some {
        let i = iof->0;
        lema_orden_remove(mano0, i);
        lema_cuenta_remove(mano0, i);
        lema_sin_duplicados_cuenta(mano0);
        assert forall|x: Carta| cuenta(eval, x) <= 1 by {
            assert(cuenta(mano0, x) == cuenta(mano0.remove(i), x) + if mano0[i] == x {
                1nat
            } else {
                0nat
            });
        }
        lema_cuenta_sin_duplicados(eval);
        mano0.remove_ensures(i);
        assert(cartas_validas(eval)) by {
            assert forall|q: int| 0 <= q < eval.len() implies carta_valida(#[trigger] eval[q]) by {
                if q < i {
                    assert(eval[q] == mano0[q]);
                } else {
                    assert(eval[q] == mano0[q + 1]);
                }
            }
        }
    }
}

} // verus!

verus! {

/// ¿Aparece la carta en alguno de los juegos?
fn en_alguno(juegos: &Vec<Vec<Carta>>, c: Carta) -> (r: bool)
    ensures
        r == en_sel(c, vista2(juegos@)),
{
    let mut q: usize = 0;
    while q < juegos.len()
        invariant
            0 <= q <= juegos@.len(),
            forall|k: int| 0 <= k < q ==> !(#[trigger] vista2(juegos@)[k]).contains(c),
        decreases juegos@.len() - q,
    {
        if contiene_carta(&juegos[q], c) {
            proof {
                assert(vista2(juegos@)[q as int].contains(c));
            }
            return true;
        }
        q += 1;
    }
    proof {
        if en_sel(c, vista2(juegos@)) {
            let k = choose|k: int|
                0 <= k < vista2(juegos@).len() && (#[trigger] vista2(juegos@)[k]).contains(c);
        }
    }
    false
}

/// Las cartas de la mano que no quedaron dentro de ningún juego.
#[verifier::loop_isolation(false)]
fn sobrantes_de(mano: &Vec<Carta>, juegos: &Vec<Vec<Carta>>) -> (r: Vec<Carta>)
    ensures
        r@ == mano@.filter(|c: Carta| !en_sel(c, vista2(juegos@))),
{
    proof {
        reveal(Seq::filter);
    }
    let ghost pred = |c: Carta| !en_sel(c, vista2(juegos@));
    let mut r: Vec<Carta> = Vec::new();
    let mut i: usize = 0;
    while i < mano.len()
        invariant
            0 <= i <= mano@.len(),
            r@ == mano@.subrange(0, i as int).filter(pred),
        decreases mano@.len() - i,
    {
        let c = mano[i];
        let esta = en_alguno(juegos, c);
        proof {
            reveal(Seq::filter);
            assert(mano@.subrange(0, i + 1).drop_last() =~= mano@.subrange(0, i as int));
            assert(mano@.subrange(0, i + 1).last() == c);
        }
        if !esta {
            r.push(c);
        }
        i += 1;
    }
    proof {
        assert(mano@.subrange(0, mano@.len() as int) =~= mano@);
    }
    r
}

/// Dos jugadores distintos en juego ya suman al menos dos.
proof fn lema_dos_activos(js: Seq<DatosJugador>, a: int, b: int)
    requires
        0 <= a < b < js.len(),
        !perdio_j(js[a]),
        !perdio_j(js[b]),
    ensures
        num_activos(js) >= 2,
    decreases js.len(),
{
    lema_activos_no_negativo(js.drop_last());
    if b == js.len() - 1 {
        assert(js.last() == js[b]);
        assert(js.drop_last()[a] == js[a]);
        lema_manos_indice(js.drop_last(), a);
    } else {
        assert(js.drop_last()[a] == js[a] && js.drop_last()[b] == js[b]);
        lema_dos_activos(js.drop_last(), a, b);
    }
}

/// Dos posiciones giradas distintas caen en índices distintos.
proof fn lema_giro_inyectivo(desde: int, len: int)
    requires
        0 <= desde < len,
    ensures
        forall|d1: int, d2: int|
            0 <= d1 < d2 < len ==> pos_girada(desde, d1, len) != pos_girada(desde, d2, len),
{
}

} // verus!

verus! {

/// Los índices de una lista, como enteros.
pub open spec fn vista_indices(v: Seq<usize>) -> Seq<int> {
    v.map_values(|x: usize| x as int)
}

} // verus!

verus! {

/// Quitar la primera aparición de una carta presente baja su conteo en uno.
proof fn lema_cuenta_remove_valor(m: Seq<Carta>, c: Carta)
    requires
        m.contains(c),
    ensures
        forall|x: Carta|
            cuenta(m, x) == cuenta(#[trigger] m.remove_value(c), x) + (if x == c {
                1nat
            } else {
                0nat
            }),
{
    m.index_of_first_ensures(c);
    let i = m.index_of_first(c)->0;
    lema_cuenta_remove(m, i);
}

} // verus!

verus! {

/// Si las manos coinciden jugador a jugador, los conteos y largos de manos
/// coinciden.
proof fn lema_manos_pareado(a: Seq<DatosJugador>, b: Seq<DatosJugador>)
    requires
        a.len() == b.len(),
        forall|i: int| 0 <= i < a.len() ==> (#[trigger] a[i]).mano@ == b[i].mano@,
    ensures
        forall|c: Carta| cuenta_manos(a, c) == cuenta_manos(b, c),
        largo_manos(a) == largo_manos(b),
    decreases a.len(),
{
    if a.len() > 0 {
        assert(forall|i: int|
            0 <= i < a.len() - 1 ==> (#[trigger] a.drop_last()[i]).mano@ == b.drop_last()[i].mano@
                && a.drop_last()[i] == a[i] && b.drop_last()[i] == b[i]);
        lema_manos_pareado(a.drop_last(), b.drop_last());
        assert(a.last() == a[a.len() - 1] && b.last() == b[b.len() - 1]);
        assert forall|c: Carta| cuenta_manos(a, c) == cuenta_manos(b, c) by {
            assert(cuenta_manos(a.drop_last(), c) == cuenta_manos(b.drop_last(), c));
        }
    }
}

/// Todo lo que queda tras filtrar estaba en la lista.
proof fn lema_filtro_contenido(s: Seq<int>, pred: spec_fn(int) -> bool)
    ensures
        forall|q: int|
            0 <= q < s.filter(pred).len() ==> s.contains(#[trigger] s.filter(pred)[q]),
    decreases s.len(),
{
    reveal(Seq::filter);
    if s.len() > 0 {
        lema_filtro_contenido(s.drop_last(), pred);
        let prev = s.drop_last().filter(pred);
        assert forall|q: int| 0 <= q < s.filter(pred).len() implies s.contains(
            #[trigger] s.filter(pred)[q],
        ) by {
            if pred(s.last()) {
                assert(s.filter(pred) == prev.push(s.last()));
                if q < prev.len() {
                    assert(prev.push(s.last())[q] == prev[q]);
                    assert(s.drop_last().contains(prev[q]));
                    let w = choose|w: int|
                        0 <= w < s.drop_last().len() && s.drop_last()[w] == prev[q];
                    assert(s[w] == prev[q]);
                } else {
                    assert(prev.push(s.last())[q] == s.last());
                    assert(s[s.len() - 1] == s.last());
                }
            } else {
                assert(s.filter(pred) == prev);
                assert(s.drop_last().contains(prev[q]));
                let w = choose|w: int| 0 <= w < s.drop_last().len() && s.drop_last()[w] == prev[q];
                assert(s[w] == prev[q]);
            }
        }
    }
}

/// Filtrar una lista de índices sin repetidos no introduce repetidos.
proof fn lema_filtro_sin_repetidos(s: Seq<int>, pred: spec_fn(int) -> bool)
    requires
        s.no_duplicates(),
    ensures
        s.filter(pred).no_duplicates(),
    decreases s.len(),
{
    reveal(Seq::filter);
    if s.len() > 0 {
        assert(s.drop_last().no_duplicates());
        lema_filtro_sin_repetidos(s.drop_last(), pred);
        let prev = s.drop_last().filter(pred);
        if pred(s.last()) {
            assert(s.filter(pred) == prev.push(s.last()));
            assert(!prev.contains(s.last())) by {
                if prev.contains(s.last()) {
                    let q = choose|q: int| 0 <= q < prev.len() && prev[q] == s.last();
                    lema_filtro_contenido(s.drop_last(), pred);
                    assert(s.drop_last().contains(prev[q]));
                    let w = choose|w: int|
                        0 <= w < s.drop_last().len() && s.drop_last()[w] == prev[q];
                    assert(s[w] == s.last());
                    assert(s[w] == s[s.len() - 1]);
                }
            }
            assert forall|x: int, y: int|
                0 <= x < y < prev.push(s.last()).len() implies prev.push(s.last())[x] != prev.push(
                s.last(),
            )[y] by {
                if y < prev.len() {
                    assert(prev.push(s.last())[x] == prev[x] && prev.push(s.last())[y] == prev[y]);
                } else {
                    assert(prev.push(s.last())[y] == s.last());
                    assert(prev.push(s.last())[x] == prev[x]);
                    assert(prev.contains(prev[x]));
                }
            }
        }
    }
}

/// Los índices de los jugadores en juego no se repiten y empiezan por
/// `desde` cuando ese jugador sigue en juego.
proof fn lema_indices_activos(js: Seq<DatosJugador>, desde: int)
    requires
        0 <= desde < js.len(),
    ensures
        indices_activos(js, desde).no_duplicates(),
{
    let ord = orden_rotado(desde, js.len() as int);
    lema_giro_inyectivo(desde, js.len() as int);
    assert(ord.no_duplicates()) by {
        assert forall|d1: int, d2: int| 0 <= d1 < d2 < ord.len() implies ord[d1] != ord[d2] by {
            assert(ord[d1] == pos_girada(desde, d1, js.len() as int));
            assert(ord[d2] == pos_girada(desde, d2, js.len() as int));
        }
    }
    lema_filtro_sin_repetidos(ord, |i: int| 0 <= i < js.len() && !perdio_j(js[i]));
}

} // verus!

verus! {

impl Partida {
    /// Evalúa la mejor descomposición de cada jugador en juego, empezando
    /// por el cortador (el del turno) y dando la vuelta; con chinchón del
    /// cortador, cada otro jugador carga 1000 puntos más y pierde. Devuelve
    /// los resultados, los índices de los jugadores evaluados y si hubo
    /// chinchón.
    #[verifier::loop_isolation(false)]
    #[verifier::rlimit(100)]
    fn evaluar_ronda(&self, yo: usize, mano_eval: &Vec<Carta>) -> (r: (
        Vec<ResultadoFinalRonda>,
        Vec<usize>,
        bool,
    ))
        requires
            self.bien_formada(),
            yo as int == self.vista_turno(),
            !perdio_j(self.vista_jugadores()[yo as int]),
            mano_bien(mano_eval@),
        ensures
            ({
                let js = self.vista_jugadores();
                let turno = self.vista_turno();
                let rs = r.0@;
                let idxs = r.1@;
                let bono = r.2;
                &&& vista_indices(idxs) == indices_activos(js, turno)
                &&& idxs.len() == rs.len()
                &&& idxs.len() >= 1 && idxs[0] as int == turno
                &&& (forall|q: int|
                    0 <= q < idxs.len() ==> ((#[trigger] idxs[q]) as int) < js.len()
                        && !perdio_j(js[idxs[q] as int]))
                &&& (forall|q1: int, q2: int|
                    0 <= q1 < q2 < idxs.len() ==> #[trigger] idxs[q1] != #[trigger] idxs[q2])
                &&& bono == rs[0].chinchon
                &&& (forall|k: int|
                    0 <= k < rs.len() ==> resultado_correcto(
                        #[trigger] rs[k],
                        js[idxs[k] as int],
                        (if idxs[k] as int == turno {
                            mano_eval@
                        } else {
                            js[idxs[k] as int].mano@
                        }),
                        idxs[k] as int == turno,
                        bono,
                    ) && 0 <= rs[k].puntos_total <= 1196)
            }),
    {
        let ghost js0 = self.jugadores@;
        let ghost turno0 = self.vista_turno();
        let ghost eval = mano_eval@;
        let ene = self.jugadores.len();
        let mut resultados: Vec<ResultadoFinalRonda> = Vec::new();
        let mut idxs: Vec<usize> = Vec::new();
        let mut bono_chinchon = false;
        let ghost ord = orden_rotado(turno0, ene as int);
        let ghost activo_p = |i: int| 0 <= i < js0.len() && !perdio_j(js0[i]);
        let mut d: usize = 0;
        while d < ene
            invariant
                0 <= d <= ene,
                idxs@.len() == resultados@.len(),
                vista_indices(idxs@) == ord.subrange(0, d as int).filter(activo_p),
                forall|k: int| 0 <= k < idxs@.len() ==> activo_p(#[trigger] idxs@[k] as int),
                forall|k: int|
                    0 <= k < resultados@.len() ==> resultado_correcto(
                        #[trigger] resultados@[k],
                        js0[idxs@[k] as int],
                        (if idxs@[k] as int == turno0 {
                            eval
                        } else {
                            js0[idxs@[k] as int].mano@
                        }),
                        idxs@[k] as int == turno0,
                        false,
                    ) && 0 <= resultados@[k].puntos_total <= 196 && -10 <= resultados@[k].puntos_sumados <= 96,
                d >= 1 ==> idxs@.len() >= 1 && idxs@[0] as int == turno0,
                d >= 1 ==> bono_chinchon == resultados@[0].chinchon,
                d == 0 ==> idxs@.len() == 0,
            decreases ene - d,
        {
            let bruto = yo + d;
            let i = if bruto >= ene {
                bruto - ene
            } else {
                bruto
            };
            proof {
                assert(i as int == pos_girada(turno0, d as int, ene as int));
                assert(ord[d as int] == i as int);
                reveal(Seq::filter);
                assert(ord.subrange(0, d + 1).drop_last() =~= ord.subrange(0, d as int));
                assert(ord.subrange(0, d + 1).last() == i as int);
            }
            let j_activo = {
                let j = &self.jugadores[i];
                !(j.puntos > 100 || j.eliminado)
            };
            if j_activo {
                let es_cortador = i == yo;
                proof {
                    assert(es_cortador <==> i as int == turno0);
                    if d > 0 {
                        lema_giro_inyectivo(turno0, ene as int);
                        assert(pos_girada(turno0, 0, ene as int) == turno0);
                        assert(i as int != turno0);
                    }
                }
                let mano_j = if es_cortador {
                    copiar_cartas(mano_eval)
                } else {
                    let j = &self.jugadores[i];
                    copiar_cartas(&j.mano)
                };
                let rj = formar_juegos(copiar_cartas(&mano_j));
                let p = rj.0;
                let juegos = rj.1;
                let sobrantes = sobrantes_de(&mano_j, &juegos);
                let sumados: i16 = if es_cortador && p == 0 {
                    -10
                } else {
                    p
                };
                let puntos_i = {
                    let j = &self.jugadores[i];
                    j.puntos
                };
                let crudo = puntos_i + sumados;
                let total: i16 = if crudo >= 0 {
                    crudo
                } else {
                    0
                };
                let chin = es_cortador && p == 0 && juegos.len() == 1;
                let pierde_flag = {
                    let j = &self.jugadores[i];
                    crudo > 100 || j.eliminado
                };
                let id_i = {
                    let j = &self.jugadores[i];
                    j.id
                };
                let res = ResultadoFinalRonda {
                    jugador: id_i,
                    puntos_sumados: sumados,
                    puntos_total: total,
                    perdio: pierde_flag,
                    chinchon: chin,
                    juegos,
                    sobrantes,
                };
                if es_cortador {
                    bono_chinchon = chin;
                }
                proof {
                    assert(resultado_correcto(
                        res,
                        js0[i as int],
                        (if i as int == turno0 {
                            eval
                        } else {
                            js0[i as int].mano@
                        }),
                        i as int == turno0,
                        false,
                    ));
                }
                idxs.push(i);
                resultados.push(res);
                proof {
                    assert(vista_indices(idxs@) =~= ord.subrange(0, d + 1).filter(activo_p));
                    assert(forall|k: int|
                        0 <= k < idxs@.len() - 1 ==> #[trigger] idxs@[k] == idxs@.drop_last()[k]);
                }
            } else {
                proof {
                    assert(!activo_p(i as int));
                    assert(vista_indices(idxs@) =~= ord.subrange(0, d + 1).filter(activo_p));
                    if d == 0 {
                        assert(i as int == turno0);
                        assert(false);
                    }
                }
            }
            d += 1;
        }
        proof {
            assert(ord.subrange(0, ene as int) =~= ord);
            assert(vista_indices(idxs@) == indices_activos(js0, turno0));
            lema_indices_activos(js0, turno0);
            assert forall|q1: int, q2: int|
                0 <= q1 < q2 < idxs@.len() implies #[trigger] idxs@[q1] != #[trigger] idxs@[q2] by {
                assert(vista_indices(idxs@)[q1] == idxs@[q1] as int);
                assert(vista_indices(idxs@)[q2] == idxs@[q2] as int);
            }
        }
        if bono_chinchon {
            let mut k: usize = 1;
            while k < resultados.len()
                invariant
                    1 <= k <= resultados@.len(),
                    idxs@.len() == resultados@.len(),
                    idxs@.len() >= 1 && idxs@[0] as int == turno0,
                    forall|q: int| 0 <= q < idxs@.len() ==> activo_p(#[trigger] idxs@[q] as int),
                    forall|q1: int, q2: int|
                        0 <= q1 < q2 < idxs@.len() ==> #[trigger] idxs@[q1] != #[trigger] idxs@[
                        q2],
                    resultados@[0].chinchon,
                    forall|q: int|
                        0 <= q < k ==> resultado_correcto(
                            #[trigger] resultados@[q],
                            js0[idxs@[q] as int],
                            (if idxs@[q] as int == turno0 {
                                eval
                            } else {
                                js0[idxs@[q] as int].mano@
                            }),
                            idxs@[q] as int == turno0,
                            true,
                        ) && 0 <= resultados@[q].puntos_total <= 1196,
                    forall|q: int|
                        k <= q < resultados@.len() ==> (resultado_correcto(
                            #[trigger] resultados@[q],
                            js0[idxs@[q] as int],
                            (if idxs@[q] as int == turno0 {
                                eval
                            } else {
                                js0[idxs@[q] as int].mano@
                            }),
                            idxs@[q] as int == turno0,
                            false,
                        ) && 0 <= resultados@[q].puntos_total <= 196 && -10 <= resultados@[q].puntos_sumados <= 96),
                decreases resultados@.len() - k,
            {
                proof {
                    assert(idxs@[k as int] != idxs@[0]);
                    assert(idxs@[k as int] as int != turno0);
                }
                let ghost rs0 = resultados@;
                let viejo_sumados = resultados[k].puntos_sumados;
                let viejo_total = resultados[k].puntos_total;
                resultados[k].puntos_sumados = viejo_sumados + 1000;
                resultados[k].puntos_total = viejo_total + 1000;
                resultados[k].perdio = true;
                proof {
                    assert(forall|q: int|
                        0 <= q < rs0.len() && q != k ==> #[trigger] resultados@[q] == rs0[q]);
                    assert(resultado_correcto(
                        resultados@[k as int],
                        js0[idxs@[k as int] as int],
                        js0[idxs@[k as int] as int].mano@,
                        false,
                        true,
                    ));
                }
                k += 1;
            }
            proof {
                assert(resultados@[0].chinchon == bono_chinchon);
            }
        }
        proof {
            if !bono_chinchon {
                assert(forall|k: int|
                    0 <= k < resultados@.len() ==> resultado_correcto(
                        #[trigger] resultados@[k],
                        js0[idxs@[k] as int],
                        (if idxs@[k] as int == turno0 {
                            eval
                        } else {
                            js0[idxs@[k] as int].mano@
                        }),
                        idxs@[k] as int == turno0,
                        bono_chinchon,
                    ) && 0 <= resultados@[k].puntos_total <= 1196);
            }
        }
        (resultados, idxs, bono_chinchon)
    }
}

} // verus!

verus! {

impl Partida {
    /// Cierre terminal: quedó un solo jugador en juego (el cortador). Las
    /// manos de los demás y la carta soltada vuelven al mazo, y el cortador
    /// se queda con la mano con la que cerró.
    #[verifier::loop_isolation(false)]
    #[verifier::rlimit(100)]
    fn cerrar_terminal(&mut self, yo: usize, mano_eval: Vec<Carta>, carta: Option<Carta>)
        requires
            ({
                let js = old(self).vista_jugadores();
                let mano0 = js[yo as int].mano@;
                &&& 2 <= js.len() <= 4
                &&& 0 <= old(self).vista_turno() < js.len()
                &&& 0 <= old(self).vista_inicia() < js.len()
                &&& (forall|i: int, k: int|
                    0 <= i < k < js.len() ==> (#[trigger] js[i]).id != (#[trigger] js[k]).id)
                &&& (forall|i: int| 0 <= i < js.len() ==> mano_bien((#[trigger] js[i]).mano@))
                &&& (forall|i: int|
                    0 <= i < js.len() ==> 0 <= (#[trigger] js[i]).puntos <= 1196 && js[i].votos_expulsar@.no_duplicates())
                &&& cartas_validas(old(self).vista_mazo())
                &&& cartas_validas(old(self).vista_descartes())
                &&& old(self).conservacion()
                &&& old(self).vista_mazo().len() + old(self).vista_descartes().len() + largo_manos(
                    js,
                ) == 48
                &&& (yo as int) == old(self).vista_turno()
                &&& !perdio_j(js[yo as int])
                &&& (forall|i: int| 0 <= i < js.len() && i != yo ==> perdio_j(#[trigger] js[i]))
                &&& mano_bien(mano_eval@)
                &&& (carta is Some ==> mano0.contains(carta->0) && mano_eval@ == mano0.remove_value(
                    carta->0,
                ) && mano0.len() == 8)
                &&& (carta is None ==> mano_eval@ == mano0 && mano0.len() == 7)
            }),
        ensures
            final(self).bien_formada(),
            ({
                let js = old(self).vista_jugadores();
                let js2 = final(self).vista_jugadores();
                &&& js2.len() == js.len()
                &&& (forall|i: int|
                    0 <= i < js.len() ==> (#[trigger] js2[i]).id == js[i].id && js2[i].puntos == js[
                    i].puntos && js2[i].eliminado == js[i].eliminado && js2[i].votos_expulsar@
                        == js[i].votos_expulsar@)
                &&& js2[yo as int].mano@ == mano_eval@
                &&& (forall|i: int|
                    0 <= i < js.len() && i != yo ==> (#[trigger] js2[i]).mano@.len() == 0)
                &&& final(self).vista_descartes() == old(self).vista_descartes()
                &&& final(self).vista_ultimo_levante() == old(self).vista_ultimo_levante()
                &&& final(self).vista_turno() == old(self).vista_turno()
                &&& final(self).vista_inicia() == old(self).vista_inicia()
                &&& final(self).vista_ultima_jugada() == old(self).vista_ultima_jugada()
            }),
    {
        let ghost js_p = self.jugadores@;
        let ghost mano0 = js_p[yo as int].mano@;
        let ene = self.jugadores.len();
        let mut i: usize = 0;
        while i < ene
            invariant
                0 <= i <= ene,
                ene == js_p.len(),
                self.jugadores@.len() == js_p.len(),
                self.descartes@ == old(self).vista_descartes(),
                self.pila_ultimo_levante == old(self).vista_ultimo_levante(),
                self.turno == old(self).vista_turno(),
                self.inicia_prox_ronda == old(self).vista_inicia(),
                self.ultima_jugada == old(self).vista_ultima_jugada(),
                cartas_validas(self.mazo@),
                forall|q: int|
                    0 <= q < js_p.len() ==> (#[trigger] self.jugadores@[q]).id == js_p[q].id
                        && self.jugadores@[q].puntos == js_p[q].puntos
                        && self.jugadores@[q].eliminado == js_p[q].eliminado
                        && self.jugadores@[q].votos_expulsar@ == js_p[q].votos_expulsar@,
                forall|q: int|
                    0 <= q < js_p.len() && (q >= i || q == yo as int) ==> (
                    #[trigger] self.jugadores@[q]).mano@ == js_p[q].mano@,
                forall|q: int|
                    0 <= q < i && q != yo as int ==> (#[trigger] self.jugadores@[q]).mano@.len()
                        == 0,
                forall|c: Carta|
                    #![trigger cuenta(self.mazo@, c)]
                    cuenta(self.mazo@, c) + cuenta_manos(self.jugadores@, c) == cuenta(
                        old(self).vista_mazo(),
                        c,
                    ) + cuenta_manos(js_p, c),
                self.mazo@.len() + largo_manos(self.jugadores@) == old(self).vista_mazo().len()
                    + largo_manos(js_p),
            decreases ene - i,
        {
            if i != yo {
                let ghost js_a = self.jugadores@;
                let vieja = {
                    let j = &self.jugadores[i];
                    copiar_cartas(&j.mano)
                };
                self.jugadores[i].mano = Vec::new();
                let ghost js_b = self.jugadores@;
                proof {
                    assert(js_b =~= js_a.update(i as int, js_b[i as int]));
                    lema_manos_update(js_a, i as int, js_b[i as int]);
                    assert(cartas_validas(vieja@)) by {
                        assert(vieja@ == js_p[i as int].mano@);
                    }
                }
                let ghost mazo_b = self.mazo@;
                let mut k2: usize = 0;
                while k2 < vieja.len()
                    invariant
                        0 <= k2 <= vieja@.len(),
                        self.jugadores@ == js_b,
                        self.descartes@ == old(self).vista_descartes(),
                        self.pila_ultimo_levante == old(self).vista_ultimo_levante(),
                        self.turno == old(self).vista_turno(),
                        self.inicia_prox_ronda == old(self).vista_inicia(),
                self.ultima_jugada == old(self).vista_ultima_jugada(),
                        cartas_validas(self.mazo@),
                        cartas_validas(vieja@),
                        forall|c: Carta|
                            #![trigger cuenta(self.mazo@, c)]
                            cuenta(self.mazo@, c) == cuenta(mazo_b, c) + cuenta(
                                vieja@.subrange(0, k2 as int),
                                c,
                            ),
                        self.mazo@.len() == mazo_b.len() + k2,
                    decreases vieja@.len() - k2,
                {
                    let ghost m0 = self.mazo@;
                    let cx = vieja[k2];
                    self.mazo.push(cx);
                    proof {
                        assert(self.mazo@.drop_last() =~= m0);
                        assert(self.mazo@.last() == cx);
                        assert(carta_valida(cx)) by {
                            assert(vieja@[k2 as int] == cx);
                        }
                        assert(cartas_validas(self.mazo@)) by {
                            assert forall|q: int| 0 <= q < self.mazo@.len() implies carta_valida(
                                #[trigger] self.mazo@[q],
                            ) by {
                                if q < m0.len() {
                                    assert(self.mazo@[q] == m0[q]);
                                }
                            }
                        }
                        assert forall|q: Carta|
                            cuenta(self.mazo@, q) == cuenta(mazo_b, q) + cuenta(
                                vieja@.subrange(0, k2 + 1),
                                q,
                            ) by {
                            assert(cuenta(self.mazo@, q) == cuenta(m0, q) + if cx == q {
                                1nat
                            } else {
                                0nat
                            });
                            assert(vieja@.subrange(0, k2 + 1).drop_last() =~= vieja@.subrange(
                                0,
                                k2 as int,
                            ));
                            assert(vieja@.subrange(0, k2 + 1).last() == cx);
                        }
                    }
                    k2 += 1;
                }
                proof {
                    assert(vieja@.subrange(0, vieja@.len() as int) =~= vieja@);
                    assert forall|c: Carta|
                        cuenta(self.mazo@, c) + cuenta_manos(self.jugadores@, c) == cuenta(
                            old(self).vista_mazo(),
                            c,
                        ) + cuenta_manos(js_p, c) by {
                        assert(cuenta(self.mazo@, c) == cuenta(mazo_b, c) + cuenta(vieja@, c));
                        assert(cuenta_manos(js_b, c) + cuenta(js_a[i as int].mano@, c)
                            == cuenta_manos(js_a, c) + cuenta(js_b[i as int].mano@, c));
                        assert(cuenta(js_b[i as int].mano@, c) == 0);
                        assert(vieja@ == js_a[i as int].mano@);
                    }
                }
            }
            i += 1;
        }
        // el cortador se queda con su mano evaluada; la carta soltada vuelve
        // al mazo
        let ghost js_t = self.jugadores@;
        let ghost mazo_t = self.mazo@;
        self.jugadores[yo].mano = mano_eval;
        proof {
            assert(self.jugadores@ =~= js_t.update(yo as int, self.jugadores@[yo as int]));
            lema_manos_update(js_t, yo as int, self.jugadores@[yo as int]);
        }
        match carta {
            Some(cx) => {
                let ghost m0 = self.mazo@;
                self.mazo.push(cx);
                proof {
                    assert(self.mazo@.drop_last() =~= m0);
                    assert(self.mazo@.last() == cx);
                    assert(carta_valida(cx)) by {
                        lema_cuenta_contiene(mano0);
                        assert(mano0.contains(cx));
                        let w = choose|w: int| 0 <= w < mano0.len() && mano0[w] == cx;
                    }
                    assert(cartas_validas(self.mazo@)) by {
                        assert forall|q: int| 0 <= q < self.mazo@.len() implies carta_valida(
                            #[trigger] self.mazo@[q],
                        ) by {
                            if q < m0.len() {
                                assert(self.mazo@[q] == m0[q]);
                            }
                        }
                    }
                }
            },
            None => {},
        }
        proof {
            let eval = mano_eval@;
            let js2 = self.vista_jugadores();
            assert forall|q: int| 0 <= q < js_p.len() implies perdio_j(#[trigger] js2[q])
                == perdio_j(js_p[q]) by {}
            lema_activos_pareado(js2, js_p);
            lema_manos_indice(js_p, yo as int);
            assert(self.conservacion()) by {
                assert forall|c: Carta|
                    self.cuenta_total(c) == (if carta_valida(c) {
                        1nat
                    } else {
                        0nat
                    }) by {
                    assert(old(self).cuenta_total(c) == if carta_valida(c) {
                        1nat
                    } else {
                        0nat
                    });
                    assert(cuenta(mazo_t, c) + cuenta_manos(js_t, c) == cuenta(
                        old(self).vista_mazo(),
                        c,
                    ) + cuenta_manos(js_p, c));
                    assert(cuenta_manos(self.jugadores@, c) + cuenta(js_t[yo as int].mano@, c)
                        == cuenta_manos(js_t, c) + cuenta(eval, c));
                    assert(js_t[yo as int].mano@ == mano0);
                    if carta is Some {
                        assert(cuenta(self.mazo@, c) == cuenta(mazo_t, c) + if carta->0 == c {
                            1nat
                        } else {
                            0nat
                        });
                        assert(cuenta(mano0, c) == cuenta(eval, c) + if carta->0 == c {
                            1nat
                        } else {
                            0nat
                        }) by {
                            lema_cuenta_remove_valor(mano0, carta->0);
                        }
                    } else {
                        assert(eval == mano0);
                    }
                }
            }
            assert(self.vista_mazo().len() + self.vista_descartes().len() + largo_manos(
                self.vista_jugadores(),
            ) == 48) by {
                assert(js_t[yo as int].mano@ == mano0);
                assert(largo_manos(self.jugadores@) == largo_manos(js_t) - mano0.len()
                    + eval.len());
                if carta is Some {
                    assert(self.vista_mazo().len() == mazo_t.len() + 1);
                    assert(eval.len() + 1 == mano0.len()) by {
                        mano0.index_of_first_ensures(carta->0);
                        assert(mano0.contains(carta->0));
                    }
                } else {
                    assert(eval == mano0);
                }
            }
            assert(self.bien_formada());
        }
    }
}

} // verus!

verus! {

impl Partida {
    /// Cierra la ronda. Con una carta dada, el cortador debe tener ocho
    /// cartas y soltarla; sin carta, exactamente siete. Si a su mejor
    /// descomposición le quedan más de 5 puntos, o cerrarse lo haría pasar
    /// de 100, la operación falla con `PuntajeMuyAlto` y nada cambia. Si no,
    /// se aplican los puntajes de todos los jugadores en juego (el cortador
    /// con cero sobrantes anota -10 y, con chinchón, los demás cargan 1000 y
    /// pierden) y, si quedan al menos dos en juego, se reparte una ronda
    /// nueva. Devuelve los resultados empezando por el cortador.
    #[verifier::loop_isolation(false)]
    #[verifier::rlimit(100)]
    pub fn cortar(&mut self, id: u64, carta: Option<Carta>) -> (r: Result<
        Vec<ResultadoFinalRonda>,
        ErrorCortar,
    >)
        requires
            old(self).bien_formada(),
            old(self).es_jugador_activo(id),
        ensures
            final(self).bien_formada(),
            ({
                let js = old(self).vista_jugadores();
                let turno = old(self).vista_turno();
                let yo = old(self).indice_de(id);
                let eval = if carta is Some {
                    js[yo].mano@.remove_value(carta->0)
                } else {
                    js[yo].mano@
                };
                if js[turno].id != id {
                    r == Err::<Vec<ResultadoFinalRonda>, ErrorCortar>(ErrorCortar::NoEsTurno)
                        && *final(self) == *old(self)
                } else if carta is Some && js[yo].mano@.len() < 8 {
                    r == Err::<Vec<ResultadoFinalRonda>, ErrorCortar>(ErrorCortar::NoPuedeBajar)
                        && *final(self) == *old(self)
                } else if carta is Some && !js[yo].mano@.contains(carta->0) {
                    r == Err::<Vec<ResultadoFinalRonda>, ErrorCortar>(ErrorCortar::NoTieneCarta)
                        && *final(self) == *old(self)
                } else if carta is None && js[yo].mano@.len() >= 8 {
                    r == Err::<Vec<ResultadoFinalRonda>, ErrorCortar>(ErrorCortar::DebeBajar)
                        && *final(self) == *old(self)
                } else if !puede_cerrar(eval, js[yo].puntos as int) {
                    r == Err::<Vec<ResultadoFinalRonda>, ErrorCortar>(ErrorCortar::PuntajeMuyAlto)
                        && *final(self) == *old(self)
                } else {
                    let rs = r->Ok_0@;
                    let ia = indices_activos(js, turno);
                    let bono = rs.len() > 0 && rs[0].chinchon;
                    let js2 = final(self).vista_jugadores();
                    &&& r is Ok
                    &&& rs.len() == ia.len()
                    &&& rs.len() > 0 && ia[0] == turno
                    &&& (forall|k: int|
                        0 <= k < rs.len() ==> resultado_correcto(
                            #[trigger] rs[k],
                            js[ia[k]],
                            (if ia[k] == turno {
                                eval
                            } else {
                                js[ia[k]].mano@
                            }),
                            ia[k] == turno,
                            bono,
                        ))
                    &&& js2.len() == js.len()
                    &&& (forall|i: int|
                        0 <= i < js.len() ==> (#[trigger] js2[i]).id == js[i].id && js2[i].eliminado
                            == js[i].eliminado && js2[i].votos_expulsar@ == js[i].votos_expulsar@)
                    &&& (forall|k: int|
                        0 <= k < rs.len() ==> js2[#[trigger] ia[k]].puntos == rs[k].puntos_total)
                    &&& (forall|i: int|
                        0 <= i < js.len() && perdio_j(#[trigger] js[i]) ==> js2[i].puntos == js[
                        i].puntos)
                    &&& final(self).vista_ultima_jugada() == old(self).vista_ultima_jugada()
                    &&& (num_activos(js2) >= 2 ==> {
                        let turno2 = final(self).vista_turno();
                        let inicia0 = old(self).vista_inicia();
                        &&& final(self).vista_descartes().len() == 0
                        &&& final(self).vista_ultimo_levante() is None
                        &&& (forall|i: int|
                            0 <= i < js2.len() ==> (#[trigger] js2[i]).mano@.len() == (if perdio_j(
                                js2[i],
                            ) {
                                0int
                            } else if i == turno2 {
                                8int
                            } else {
                                7int
                            }))
                        &&& !perdio_j(js2[turno2])
                        &&& (!perdio_j(js2[inicia0]) ==> turno2 == inicia0)
                        &&& (perdio_j(js2[inicia0]) ==> es_siguiente_activo(js2, inicia0, turno2))
                        &&& es_siguiente_activo(js2, turno2, final(self).vista_inicia())
                    })
                    &&& (num_activos(js2) <= 1 ==> final(self).vista_turno() == turno
                        && js2[turno].mano@ == eval)
                }
            }),
    {
        let yo = match self.buscar(id) {
            Some(i) => i,
            None => {
                proof {
                    assert(false);
                }
                0
            },
        };
        if self.jugadores[self.turno].id != id {
            return Err(ErrorCortar::NoEsTurno);
        }
        proof {
            let js = self.vista_jugadores();
            if yo as int != self.vista_turno() {
                assert(js[yo as int].id != js[self.vista_turno()].id);
            }
        }
        let ghost js0 = self.jugadores@;
        let ghost turno0 = self.vista_turno();
        let ghost mano0 = js0[yo as int].mano@;
        let mano_propia = {
            let j = &self.jugadores[yo];
            copiar_cartas(&j.mano)
        };
        let mut mano_eval: Vec<Carta>;
        match carta {
            Some(c) => {
                if mano_propia.len() < 8 {
                    return Err(ErrorCortar::NoPuedeBajar);
                }
                mano_eval = mano_propia;
                match buscar_carta(&mano_eval, c) {
                    Some(pos) => {
                        mano_eval.remove(pos);
                        proof {
                            mano0.index_of_first_ensures(c);
                            let iof = mano0.index_of_first(c);
                            assert(mano0.contains(c)) by {
                                assert(mano0[pos as int] == c);
                            }
                            assert(iof is Some);
                            assert(iof->0 == pos as int) by {
                                if iof->0 < pos {
                                    assert(mano0[iof->0] != c);
                                }
                                if iof->0 > pos {
                                    assert(mano0[pos as int] != c);
                                }
                            }
                            assert(mano_eval@ == mano0.remove_value(c));
                        }
                    },
                    None => {
                        return Err(ErrorCortar::NoTieneCarta);
                    },
                }
            },
            None => {
                if mano_propia.len() >= 8 {
                    return Err(ErrorCortar::DebeBajar);
                }
                mano_eval = mano_propia;
            },
        }
        let ghost eval = mano_eval@;
        proof {
            if carta is Some {
                lema_mano_menos_carta(mano0, eval, carta->0);
            }
            assert(mano_bien(eval));
            assert(mano0.len() == 8 ==> eval.len() == 7) by {
                if carta is Some {
                    mano0.index_of_first_ensures(carta->0);
                }
            }
        }
        let puntos_propios = {
            let j = &self.jugadores[yo];
            j.puntos
        };
        let propio = formar_juegos(copiar_cartas(&mano_eval));
        let p_propio = propio.0;
        let juegos_propio = propio.1;
        let falla = p_propio > 5 || puntos_propios + (if p_propio == 0 {
            -10
        } else {
            p_propio
        }) > 100;
        proof {
            let sel0 = vista2(juegos_propio@);
            if falla {
                assert(!puede_cerrar(eval, puntos_propios as int)) by {
                    if puede_cerrar(eval, puntos_propios as int) {
                        let sel = choose|sel: Seq<Seq<Carta>>|
                            #[trigger] seleccion_de_mano(sel, eval) && suma_nums(eval) - peso_sel(
                                sel,
                            ) <= 5 && puntos_propios + (suma_nums(eval) - peso_sel(sel)) <= 100;
                        assert(peso_sel(sel) <= peso_sel(sel0));
                    }
                }
            } else {
                assert(puede_cerrar(eval, puntos_propios as int)) by {
                    assert(seleccion_de_mano(sel0, eval) && suma_nums(eval) - peso_sel(sel0) <= 5
                        && puntos_propios + (suma_nums(eval) - peso_sel(sel0)) <= 100);
                }
            }
        }
        if falla {
            return Err(ErrorCortar::PuntajeMuyAlto);
        }
        let evaluados = self.evaluar_ronda(yo, &mano_eval);
        let resultados = evaluados.0;
        let idxs = evaluados.1;
        let ghost bono = evaluados.2;
        // aplicar los puntajes
        let mut k: usize = 0;
        while k < resultados.len()
            invariant
                0 <= k <= resultados@.len(),
                idxs@.len() == resultados@.len(),
                self.jugadores@.len() == js0.len(),
                self.mazo@ == old(self).vista_mazo(),
                self.descartes@ == old(self).vista_descartes(),
                self.pila_ultimo_levante == old(self).vista_ultimo_levante(),
                self.turno == old(self).vista_turno(),
                self.inicia_prox_ronda == old(self).vista_inicia(),
                self.ultima_jugada == old(self).vista_ultima_jugada(),
                forall|q: int|
                    0 <= q < k ==> (#[trigger] self.jugadores@[idxs@[q] as int]).puntos
                        == resultados@[q].puntos_total,
                forall|i: int|
                    0 <= i < js0.len() ==> {
                        let ahora = #[trigger] self.jugadores@[i];
                        ahora.id == js0[i].id && ahora.mano@ == js0[i].mano@ && ahora.eliminado
                            == js0[i].eliminado && ahora.votos_expulsar@ == js0[i].votos_expulsar@
                    },
                forall|i: int|
                    0 <= i < js0.len() && (forall|q: int|
                        0 <= q < k ==> (#[trigger] idxs@[q]) as int != i) ==> (
                    #[trigger] self.jugadores@[i]).puntos == js0[i].puntos,
                forall|i: int|
                    0 <= i < js0.len() ==> 0 <= (#[trigger] self.jugadores@[i]).puntos <= 1196,
            decreases resultados@.len() - k,
        {
            let ghost js_antes = self.jugadores@;
            let destino = idxs[k];
            let nuevo_puntaje = resultados[k].puntos_total;
            self.jugadores[destino].puntos = nuevo_puntaje;
            proof {
                assert(self.jugadores@ =~= js_antes.update(
                    destino as int,
                    self.jugadores@[destino as int],
                ));
                assert(forall|i: int|
                    0 <= i < js0.len() && i != destino as int ==> #[trigger] self.jugadores@[i]
                        == js_antes[i]);
                assert forall|q: int|
                    0 <= q < k + 1 implies (#[trigger] self.jugadores@[idxs@[q] as int]).puntos
                    == resultados@[q].puntos_total by {
                    if q < k {
                        assert(idxs@[q] != idxs@[k as int]);
                        assert(self.jugadores@[idxs@[q] as int] == js_antes[idxs@[q] as int]);
                    }
                }
            }
            k += 1;
        }
        let ghost js_p = self.jugadores@;
        proof {
            assert(idxs@[0] as int == turno0) by {
                assert(vista_indices(idxs@)[0] == idxs@[0] as int);
            }
            assert(js_p[turno0].puntos == resultados@[0].puntos_total);
            assert(resultado_correcto(resultados@[0], js0[turno0], eval, true, bono));
            assert(0 <= js_p[turno0].puntos <= 100) by {
                let sel = vista2(resultados@[0].juegos@);
                let base = suma_nums(eval) - peso_sel(sel);
                assert(base <= p_propio as int) by {
                    assert(peso_sel(vista2(juegos_propio@)) <= peso_sel(sel));
                }
                assert(base >= p_propio as int) by {
                    assert(peso_sel(sel) <= peso_sel(vista2(juegos_propio@)));
                }
            }
            assert(!perdio_j(js_p[turno0]));
            lema_manos_indice(js_p, turno0);
            assert(num_activos(js_p) >= 1);
            lema_manos_pareado(js_p, js0);
            assert(self.conservacion()) by {
                assert forall|c: Carta|
                    self.cuenta_total(c) == (if carta_valida(c) {
                        1nat
                    } else {
                        0nat
                    }) by {
                    assert(old(self).cuenta_total(c) == if carta_valida(c) {
                        1nat
                    } else {
                        0nat
                    });
                    assert(cuenta_manos(js_p, c) == cuenta_manos(js0, c));
                }
            }
            assert(largo_manos(js_p) == largo_manos(js0));
        }
        let quedan = self.jugadores_en_juego();
        if quedan > 1 {
            let ghost inicia0 = self.vista_inicia();
            self.comenzar_ronda();
            proof {
                let js2 = self.vista_jugadores();
                assert(forall|i: int|
                    0 <= i < js2.len() ==> perdio_j(#[trigger] js2[i]) == perdio_j(js_p[i]));
                lema_activos_pareado(js2, js_p);
                assert(es_siguiente_activo(js2, self.vista_turno(), self.vista_inicia()));
                if perdio_j(js2[inicia0]) {
                    assert(perdio_j(js_p[inicia0]));
                    lema_siguiente_pareado(js_p, js2, inicia0, self.vista_turno());
                }
            }
        } else {
            proof {
                assert forall|i: int| 0 <= i < js_p.len() && i != turno0 implies perdio_j(
                    #[trigger] js_p[i],
                ) by {
                    if !perdio_j(js_p[i]) {
                        if i < turno0 {
                            lema_dos_activos(js_p, i, turno0);
                        } else {
                            lema_dos_activos(js_p, turno0, i);
                        }
                    }
                }
                assert(js_p[yo as int].mano@ == mano0);
                assert(carta is Some ==> mano0.len() == 8) by {
                    if carta is Some && mano0.len() < 8 {
                        assert(false);
                    }
                }
                assert(carta is None ==> mano0.len() == 7) by {
                    if carta is None && mano0.len() != 7 {
                        assert(mano0.len() == 8 && turno0 == yo as int);
                        assert(false);
                    }
                }
            }
            self.cerrar_terminal(yo, mano_eval, carta);
            proof {
                lema_activos_pareado(final(self).vista_jugadores(), js_p);
                lema_manos_indice(js_p, turno0);
            }
        }
        Ok(resultados)
    }
}

} // verus!

verus! {

/// El estado completo de una partida como registro plano, sin campos
/// derivados: sirve para guardarla y restaurarla reproduciendo el mismo
/// comportamiento.
pub struct RegistroPartida {
    pub mazo: Vec<Carta>,
    pub descartes: Vec<Carta>,
    pub pila_ultimo_levante: Option<PilaCartas>,
    pub jugadores: Vec<DatosJugador>,
    pub turno: usize,
    pub inicia_prox_ronda: usize,
    pub ultima_jugada: u64,
}

/// Conteo total de una carta en un registro.
pub open spec fn cuenta_registro(r: RegistroPartida, c: Carta) -> nat {
    cuenta(r.mazo@, c) + cuenta(r.descartes@, c) + cuenta_manos(r.jugadores@, c)
}

/// Un registro vale exactamente cuando describe una partida bien formada.
pub open spec fn registro_valido(r: RegistroPartida) -> bool {
    let js = r.jugadores@;
    &&& 2 <= js.len() <= 4
    &&& 0 <= r.turno < js.len()
    &&& 0 <= r.inicia_prox_ronda < js.len()
    &&& forall|i: int, k: int|
        0 <= i < k < js.len() ==> (#[trigger] js[i]).id != (#[trigger] js[k]).id
    &&& forall|i: int| 0 <= i < js.len() ==> mano_bien((#[trigger] js[i]).mano@)
    &&& forall|i: int|
        0 <= i < js.len() ==> 0 <= (#[trigger] js[i]).puntos <= 1196 && js[i].votos_expulsar@.no_duplicates()
    &&& forall|i: int|
        0 <= i < js.len() ==> if perdio_j(#[trigger] js[i]) {
            js[i].mano@.len() == 0
        } else {
            js[i].mano@.len() == 7 || (i == r.turno && js[i].mano@.len() == 8)
        }
    &&& cartas_validas(r.mazo@)
    &&& cartas_validas(r.descartes@)
    &&& (forall|c: Carta|
        cuenta_registro(r, c) == if carta_valida(c) {
            1nat
        } else {
            0nat
        })
    &&& r.mazo@.len() + r.descartes@.len() + largo_manos(js) == 48
    &&& (num_activos(js) >= 1 ==> !perdio_j(js[r.turno as int]))
}

/// Cuenta cuántas veces está la carta en el vector.
#[verifier::loop_isolation(false)]
fn cuenta_exec(v: &Vec<Carta>, c: Carta) -> (r: usize)
    ensures
        r as nat == cuenta(v@, c),
{
    let mut r: usize = 0;
    let mut i: usize = 0;
    while i < v.len()
        invariant
            0 <= i <= v@.len(),
            r <= i,
            r as nat == cuenta(v@.subrange(0, i as int), c),
        decreases v@.len() - i,
    {
        proof {
            assert(v@.subrange(0, i + 1).drop_last() =~= v@.subrange(0, i as int));
            assert(v@.subrange(0, i + 1).last() == v@[i as int]);
        }
        if v[i] == c {
            r += 1;
        }
        i += 1;
    }
    proof {
        assert(v@.subrange(0, v@.len() as int) =~= v@);
    }
    r
}

/// ¿Es válida la carta y está el vector ordenado estrictamente por la clave
/// de mano? (Eso lo deja sin repetidas y ordenado.)
#[verifier::loop_isolation(false)]
fn revisar_mano(v: &Vec<Carta>) -> (r: bool)
    ensures
        r == mano_bien(v@),
{
    if v.len() > 8 {
        return false;
    }
    let mut i: usize = 0;
    while i < v.len()
        invariant
            0 <= i <= v@.len(),
            v@.len() <= 8,
            forall|k: int| 0 <= k < i ==> carta_valida(#[trigger] v@[k]),
            forall|k: int|
                0 < k < i ==> clave_mano(v@[k - 1]) < clave_mano(#[trigger] v@[k]),
        decreases v@.len() - i,
    {
        let c = v[i];
        if !(1 <= c.num && c.num <= 12) {
            proof {
                assert(!carta_valida(v@[i as int]));
            }
            return false;
        }
        if i > 0 {
            let anterior = v[i - 1];
            if !(anterior.clave_mano_exec() < c.clave_mano_exec()) {
                proof {
                    assert(!(clave_mano(v@[i - 1]) < clave_mano(v@[i as int])));
                    if mano_bien(v@) {
                        lema_estricta_mano(v@);
                    }
                }
                return false;
            }
        }
        i += 1;
    }
    proof {
        assert forall|a: int, b: int| 0 <= a < b < v@.len() implies clave_mano(#[trigger] v@[a])
            < clave_mano(#[trigger] v@[b]) by {
            lema_cadena_claves(v@, a, b);
        }
        assert(v@.no_duplicates()) by {
            assert forall|a: int, b: int| 0 <= a < b < v@.len() implies v@[a] != v@[b] by {
                assert(clave_mano(v@[a]) < clave_mano(v@[b]));
            }
        }
    }
    true
}

/// Claves estrictamente crecientes entre vecinas lo son entre cualquier par.
proof fn lema_cadena_claves(s: Seq<Carta>, a: int, b: int)
    requires
        forall|k: int| 0 < k < s.len() ==> clave_mano(s[k - 1]) < clave_mano(#[trigger] s[k]),
        0 <= a < b < s.len(),
    ensures
        clave_mano(s[a]) < clave_mano(s[b]),
    decreases b - a,
{
    if b == a + 1 {
        assert(clave_mano(s[b - 1]) < clave_mano(s[b]));
    } else {
        lema_cadena_claves(s, a, b - 1);
        assert(clave_mano(s[b - 1]) < clave_mano(s[b]));
    }
}

impl Partida {
    /// El estado completo de la partida como registro plano.
    pub fn a_registro(&self) -> (r: RegistroPartida)
        requires
            self.bien_formada(),
        ensures
            registro_valido(r),
            r.mazo@ == self.vista_mazo(),
            r.descartes@ == self.vista_descartes(),
            r.pila_ultimo_levante == self.vista_ultimo_levante(),
            r.turno as int == self.vista_turno(),
            r.inicia_prox_ronda as int == self.vista_inicia(),
            r.ultima_jugada == self.vista_ultima_jugada(),
            r.jugadores@.len() == self.vista_jugadores().len(),
            forall|i: int|
                0 <= i < r.jugadores@.len() ==> {
                    let a = #[trigger] r.jugadores@[i];
                    let b = self.vista_jugadores()[i];
                    a.id == b.id && a.mano@ == b.mano@ && a.puntos == b.puntos && a.eliminado
                        == b.eliminado && a.votos_expulsar@ == b.votos_expulsar@
                },
    {
        let mut jugadores: Vec<DatosJugador> = Vec::new();
        let mut i: usize = 0;
        while i < self.jugadores.len()
            invariant
                self.bien_formada(),
                0 <= i <= self.vista_jugadores().len(),
                jugadores@.len() == i,
                forall|q: int|
                    0 <= q < i ==> {
                        let a = #[trigger] jugadores@[q];
                        let b = self.vista_jugadores()[q];
                        a.id == b.id && a.mano@ == b.mano@ && a.puntos == b.puntos && a.eliminado
                            == b.eliminado && a.votos_expulsar@ == b.votos_expulsar@
                    },
            decreases self.vista_jugadores().len() - i,
        {
            let j = &self.jugadores[i];
            jugadores.push(
                DatosJugador {
                    id: j.id,
                    mano: copiar_cartas(&j.mano),
                    puntos: j.puntos,
                    votos_expulsar: copiar_ids(&j.votos_expulsar),
                    eliminado: j.eliminado,
                },
            );
            i += 1;
        }
        let r = RegistroPartida {
            mazo: copiar_cartas(&self.mazo),
            descartes: copiar_cartas(&self.descartes),
            pila_ultimo_levante: self.pila_ultimo_levante,
            jugadores,
            turno: self.turno,
            inicia_prox_ronda: self.inicia_prox_ronda,
            ultima_jugada: self.ultima_jugada,
        };
        proof {
            let js = self.vista_jugadores();
            let js2 = r.jugadores@;
            assert forall|q: int| 0 <= q < js2.len() implies perdio_j(#[trigger] js2[q])
                == perdio_j(js[q]) && js2[q].mano@ == js[q].mano@ by {}
            lema_activos_pareado(js2, js);
            lema_manos_pareado(js2, js);
            assert(registro_valido(r)) by {
                assert forall|c: Carta|
                    cuenta_registro(r, c) == (if carta_valida(c) {
                        1nat
                    } else {
                        0nat
                    }) by {
                    assert(self.cuenta_total(c) == if carta_valida(c) {
                        1nat
                    } else {
                        0nat
                    });
                    assert(cuenta_manos(js2, c) == cuenta_manos(js, c));
                }
            }
        }
        r
    }

    /// Reconstruye una partida desde un registro plano, validando que
    /// describa un estado bien formado; devuelve `None` en cualquier otro
    /// caso.
    #[verifier::loop_isolation(false)]
    #[verifier::rlimit(100)]
    pub fn desde_registro(registro: RegistroPartida) -> (r: Option<Partida>)
        ensures
            (r is Some) == registro_valido(registro),
            r is Some ==> {
                let p = r->0;
                &&& p.bien_formada()
                &&& p.vista_mazo() == registro.mazo@
                &&& p.vista_descartes() == registro.descartes@
                &&& p.vista_ultimo_levante() == registro.pila_ultimo_levante
                &&& p.vista_jugadores() == registro.jugadores@
                &&& p.vista_turno() == registro.turno as int
                &&& p.vista_inicia() == registro.inicia_prox_ronda as int
                &&& p.vista_ultima_jugada() == registro.ultima_jugada
            },
    {
        let n = registro.jugadores.len();
        if !(2 <= n && n <= 4) {
            return None;
        }
        if !(registro.turno < n && registro.inicia_prox_ronda < n) {
            return None;
        }
        // identidades distintas
        let mut i: usize = 0;
        while i < n
            invariant
                0 <= i <= n,
                n == registro.jugadores@.len(),
                forall|a: int, b: int|
                    0 <= a < b < i ==> (#[trigger] registro.jugadores@[a]).id != (
                    #[trigger] registro.jugadores@[b]).id,
            decreases n - i,
        {
            let mut k: usize = 0;
            while k < i
                invariant
                    0 <= k <= i < n,
                    n == registro.jugadores@.len(),
                    forall|b: int|
                        0 <= b < k ==> (#[trigger] registro.jugadores@[b]).id
                            != registro.jugadores@[i as int].id,
                decreases i - k,
            {
                let igual = {
                    let ja = &registro.jugadores[k];
                    let jb = &registro.jugadores[i];
                    ja.id == jb.id
                };
                if igual {
                    return None;
                }
                k += 1;
            }
            i += 1;
        }
        // manos, puntos y votos de cada jugador
        let mut i2: usize = 0;
        while i2 < n
            invariant
                0 <= i2 <= n,
                n == registro.jugadores@.len(),
                registro.turno < n,
                forall|q: int|
                    0 <= q < i2 ==> {
                        let j = #[trigger] registro.jugadores@[q];
                        mano_bien(j.mano@) && 0 <= j.puntos <= 1196
                            && j.votos_expulsar@.no_duplicates() && (if perdio_j(j) {
                            j.mano@.len() == 0
                        } else {
                            j.mano@.len() == 7 || (q == registro.turno && j.mano@.len() == 8)
                        })
                    },
            decreases n - i2,
        {
            let bien = {
                let j = &registro.jugadores[i2];
                revisar_mano(&j.mano)
            };
            if !bien {
                return None;
            }
            let j_puntos = {
                let j = &registro.jugadores[i2];
                j.puntos
            };
            if !(0 <= j_puntos && j_puntos <= 1196) {
                return None;
            }
            // votos sin repetidos
            let cuantos_votos = {
                let j = &registro.jugadores[i2];
                j.votos_expulsar.len()
            };
            let mut a: usize = 0;
            while a < cuantos_votos
                invariant
                    0 <= a <= cuantos_votos,
                    i2 < n,
                    n == registro.jugadores@.len(),
                    cuantos_votos == registro.jugadores@[i2 as int].votos_expulsar@.len(),
                    forall|x: int, y: int|
                        0 <= x < y < a ==> (#[trigger] registro.jugadores@[i2 as int].votos_expulsar@[x])
                            != (#[trigger] registro.jugadores@[i2 as int].votos_expulsar@[y]),
                decreases cuantos_votos - a,
            {
                let mut b: usize = 0;
                while b < a
                    invariant
                        0 <= b <= a < cuantos_votos,
                        i2 < n,
                        n == registro.jugadores@.len(),
                        cuantos_votos == registro.jugadores@[i2 as int].votos_expulsar@.len(),
                        forall|y: int|
                            0 <= y < b ==> registro.jugadores@[i2 as int].votos_expulsar@[y]
                                != registro.jugadores@[i2 as int].votos_expulsar@[a as int],
                    decreases a - b,
                {
                    let repetido = {
                        let j = &registro.jugadores[i2];
                        j.votos_expulsar[b] == j.votos_expulsar[a]
                    };
                    if repetido {
                        proof {
                            let v = registro.jugadores@[i2 as int].votos_expulsar@;
                            assert(!v.no_duplicates()) by {
                                assert(v[b as int] == v[a as int]);
                            }
                        }
                        return None;
                    }
                    b += 1;
                }
                a += 1;
            }
            proof {
                let v = registro.jugadores@[i2 as int].votos_expulsar@;
                assert(v.no_duplicates());
            }
            // tamaño de la mano según el estado del jugador
            let largo = {
                let j = &registro.jugadores[i2];
                j.mano.len()
            };
            let perdio_el = {
                let j = &registro.jugadores[i2];
                j.puntos > 100 || j.eliminado
            };
            if perdio_el {
                if largo != 0 {
                    return None;
                }
            } else {
                if !(largo == 7 || (i2 == registro.turno && largo == 8)) {
                    return None;
                }
            }
            i2 += 1;
        }
        // validez de las pilas
        let mut i3: usize = 0;
        while i3 < registro.mazo.len()
            invariant
                0 <= i3 <= registro.mazo@.len(),
                forall|q: int| 0 <= q < i3 ==> carta_valida(#[trigger] registro.mazo@[q]),
            decreases registro.mazo@.len() - i3,
        {
            let c = registro.mazo[i3];
            if !(1 <= c.num && c.num <= 12) {
                proof {
                    assert(!carta_valida(registro.mazo@[i3 as int]));
                }
                return None;
            }
            i3 += 1;
        }
        let mut i4: usize = 0;
        while i4 < registro.descartes.len()
            invariant
                0 <= i4 <= registro.descartes@.len(),
                forall|q: int| 0 <= q < i4 ==> carta_valida(#[trigger] registro.descartes@[q]),
            decreases registro.descartes@.len() - i4,
        {
            let c = registro.descartes[i4];
            if !(1 <= c.num && c.num <= 12) {
                proof {
                    assert(!carta_valida(registro.descartes@[i4 as int]));
                }
                return None;
            }
            i4 += 1;
        }
        // las pilas no pueden pasar de la baraja entera
        if registro.mazo.len() > 48 || registro.descartes.len() > 48 {
            proof {
                lema_activos_no_negativo(registro.jugadores@);
            }
            return None;
        }
        // conservación: cada carta de la baraja exactamente una vez
        let mut num: u8 = 1;
        while num <= 12
            invariant
                1 <= num <= 13,
                n == registro.jugadores@.len(),
                forall|c: Carta|
                    carta_valida(c) && c.num < num ==> #[trigger] cuenta_registro(registro, c)
                        == 1,
            decreases 13 - num,
        {
            let mut p: u8 = 0;
            while p < 4
                invariant
                    0 <= p <= 4,
                    1 <= num <= 12,
                    n == registro.jugadores@.len(),
                    forall|c: Carta|
                        carta_valida(c) && (c.num < num || (c.num == num && indice_palo(c.palo)
                            < p)) ==> #[trigger] cuenta_registro(registro, c) == 1,
                decreases 4 - p,
            {
                let c = Carta { num, palo: palo_de_indice(p) };
                let en_mazo = cuenta_exec(&registro.mazo, c);
                let en_descartes = cuenta_exec(&registro.descartes, c);
                proof {
                    lema_cuenta_cota(registro.mazo@, c);
                    lema_cuenta_cota(registro.descartes@, c);
                }
                let mut total: usize = en_mazo + en_descartes;
                let mut q: usize = 0;
                while q < n
                    invariant
                        0 <= q <= n,
                        n == registro.jugadores@.len(),
                        1 <= num <= 12,
                        indice_palo(c.palo) == p as int,
                        c.num == num,
                        total as nat == cuenta(registro.mazo@, c) + cuenta(registro.descartes@, c)
                            + cuenta_manos(registro.jugadores@.subrange(0, q as int), c),
                        total <= registro.mazo@.len() + registro.descartes@.len() + 8 * q,
                    decreases n - q,
                {
                    let en_mano = {
                        let j = &registro.jugadores[q];
                        cuenta_exec(&j.mano, c)
                    };
                    proof {
                        let js = registro.jugadores@;
                        assert(js.subrange(0, q + 1).drop_last() =~= js.subrange(0, q as int));
                        assert(js.subrange(0, q + 1).last() == js[q as int]);
                        lema_cuenta_cota(js[q as int].mano@, c);
                        assert(js[q as int].mano@.len() <= 8) by {
                            assert(mano_bien(js[q as int].mano@));
                        }
                    }
                    total += en_mano;
                    q += 1;
                }
                proof {
                    assert(registro.jugadores@.subrange(0, n as int) =~= registro.jugadores@);
                    assert(total as nat == cuenta_registro(registro, c));
                }
                if total != 1 {
                    return None;
                }
                proof {
                    assert forall|x: Carta|
                        carta_valida(x) && (x.num < num || (x.num == num && indice_palo(x.palo) < p
                            + 1)) implies #[trigger] cuenta_registro(registro, x) == 1 by {
                        if !(x.num < num || (x.num == num && indice_palo(x.palo) < p)) {
                            assert(x.num == num && indice_palo(x.palo) == p as int);
                            assert(clave_mano(x) == clave_mano(c));
                            lema_clave_mano_inyectiva(x, c);
                        }
                    }
                }
                p += 1;
            }
            num += 1;
        }
        // largo total y jugador del turno en juego
        let mut largos: usize = registro.mazo.len() + registro.descartes.len();
        let mut q2: usize = 0;
        while q2 < n
            invariant
                0 <= q2 <= n,
                n == registro.jugadores@.len(),
                forall|q: int|
                    0 <= q < n ==> (#[trigger] registro.jugadores@[q]).mano@.len() <= 8,
                largos as int == registro.mazo@.len() + registro.descartes@.len() + largo_manos(
                    registro.jugadores@.subrange(0, q2 as int),
                ),
                largos <= registro.mazo@.len() + registro.descartes@.len() + 8 * q2,
            decreases n - q2,
        {
            proof {
                let js = registro.jugadores@;
                assert(js.subrange(0, q2 + 1).drop_last() =~= js.subrange(0, q2 as int));
                assert(js.subrange(0, q2 + 1).last() == js[q2 as int]);
                lema_largos_cota(registro.mazo@, registro.descartes@, registro.jugadores@);
            }
            let en_mano = {
                let j = &registro.jugadores[q2];
                j.mano.len()
            };
            largos += en_mano;
            q2 += 1;
        }
        proof {
            assert(registro.jugadores@.subrange(0, n as int) =~= registro.jugadores@);
        }
        if largos != 48 {
            return None;
        }
        let mut activos: usize = 0;
        let mut q3: usize = 0;
        while q3 < n
            invariant
                0 <= q3 <= n,
                n == registro.jugadores@.len(),
                activos as int == num_activos(registro.jugadores@.subrange(0, q3 as int)),
                activos <= q3,
            decreases n - q3,
        {
            proof {
                let js = registro.jugadores@;
                assert(js.subrange(0, q3 + 1).drop_last() =~= js.subrange(0, q3 as int));
                assert(js.subrange(0, q3 + 1).last() == js[q3 as int]);
            }
            let j_activo = {
                let j = &registro.jugadores[q3];
                !(j.puntos > 100 || j.eliminado)
            };
            if j_activo {
                activos += 1;
            }
            q3 += 1;
        }
        proof {
            assert(registro.jugadores@.subrange(0, n as int) =~= registro.jugadores@);
        }
        if activos >= 1 {
            let turno_perdio = {
                let j = &registro.jugadores[registro.turno];
                j.puntos > 100 || j.eliminado
            };
            if turno_perdio {
                return None;
            }
        }
        let p = Partida {
            mazo: registro.mazo,
            descartes: registro.descartes,
            pila_ultimo_levante: registro.pila_ultimo_levante,
            jugadores: registro.jugadores,
            turno: registro.turno,
            inicia_prox_ronda: registro.inicia_prox_ronda,
            ultima_jugada: registro.ultima_jugada,
        };
        proof {
            assert forall|c: Carta|
                cuenta_registro(registro, c) == (if carta_valida(c) {
                    1nat
                } else {
                    0nat
                }) by {
                if carta_valida(c) {
                    assert(c.num < 13);
                } else {
                    lema_cuenta_invalida(registro.mazo@, c);
                    lema_cuenta_invalida(registro.descartes@, c);
                    lema_manos_invalida(registro.jugadores@, c);
                }
            }
            assert(registro_valido(registro));
            assert(p.conservacion()) by {
                assert forall|c: Carta|
                    p.cuenta_total(c) == (if carta_valida(c) {
                        1nat
                    } else {
                        0nat
                    }) by {
                    assert(cuenta_registro(registro, c) == if carta_valida(c) {
                        1nat
                    } else {
                        0nat
                    });
                    assert(p.vista_mazo() == registro.mazo@);
                    assert(p.vista_descartes() == registro.descartes@);
                    assert(p.vista_jugadores() == registro.jugadores@);
                }
            }
            assert(p.bien_formada());
        }
        Some(p)
    }
}

/// Una carta que no es de la baraja no aparece entre cartas válidas.
proof fn lema_cuenta_invalida(s: Seq<Carta>, c: Carta)
    requires
        cartas_validas(s),
        !carta_valida(c),
    ensures
        cuenta(s, c) == 0,
{
    lema_cuenta_contiene(s);
    if cuenta(s, c) > 0 {
        assert(s.contains(c));
        let w = choose|w: int| 0 <= w < s.len() && s[w] == c;
        assert(carta_valida(s[w]));
    }
}

/// Ni en las manos, cuando todas llevan cartas válidas.
proof fn lema_manos_invalida(js: Seq<DatosJugador>, c: Carta)
    requires
        forall|i: int| 0 <= i < js.len() ==> mano_bien((#[trigger] js[i]).mano@),
        !carta_valida(c),
    ensures
        cuenta_manos(js, c) == 0,
    decreases js.len(),
{
    if js.len() > 0 {
        assert(forall|i: int|
            0 <= i < js.len() - 1 ==> mano_bien((#[trigger] js.drop_last()[i]).mano@) && js.drop_last()[i] == js[i]);
        lema_manos_invalida(js.drop_last(), c);
        assert(js.last() == js[js.len() - 1]);
        lema_cuenta_invalida(js.last().mano@, c);
    }
}

/// El conteo de una carta no supera el largo de la secuencia.
proof fn lema_cuenta_cota(s: Seq<Carta>, c: Carta)
    ensures
        cuenta(s, c) <= s.len(),
    decreases s.len(),
{
    if s.len() > 0 {
        lema_cuenta_cota(s.drop_last(), c);
    }
}

/// Cota gruesa del total de cartas cuando cada mano lleva a lo sumo ocho.
proof fn lema_largos_cota(mazo: Seq<Carta>, descartes: Seq<Carta>, js: Seq<DatosJugador>)
    requires
        forall|i: int| 0 <= i < js.len() ==> (#[trigger] js[i]).mano@.len() <= 8,
    ensures
        largo_manos(js) <= 8 * js.len(),
{
    lema_largo_cota(js);
}

} // verus!

verus! {

impl Partida {
    /// Anota el instante de la última jugada. El reloj lo pone quien
    /// integra: el motor sólo guarda el valor.
    pub fn marcar_jugada(&mut self, ahora: u64)
        requires
            old(self).bien_formada(),
        ensures
            final(self).bien_formada(),
            final(self).vista_ultima_jugada() == ahora,
            final(self).vista_mazo() == old(self).vista_mazo(),
            final(self).vista_descartes() == old(self).vista_descartes(),
            final(self).vista_ultimo_levante() == old(self).vista_ultimo_levante(),
            final(self).vista_jugadores() == old(self).vista_jugadores(),
            final(self).vista_turno() == old(self).vista_turno(),
            final(self).vista_inicia() == old(self).vista_inicia(),
    {
        self.ultima_jugada = ahora;
        proof {
            assert(self.conservacion()) by {
                assert forall|c: Carta|
                    self.cuenta_total(c) == (if carta_valida(c) {
                        1nat
                    } else {
                        0nat
                    }) by {
                    assert(old(self).cuenta_total(c) == if carta_valida(c) {
                        1nat
                    } else {
                        0nat
                    });
                }
            }
            assert(self.bien_formada());
        }
    }

    /// Cuánto lleva quieta la partida hasta el instante `ahora`; cero si el
    /// instante anotado viene después.
    pub fn tiempo_inactivo(&self, ahora: u64) -> (r: u64)
        ensures
            r == (if ahora >= self.vista_ultima_jugada() {
                ahora - self.vista_ultima_jugada()
            } else {
                0
            }),
    {
        if ahora >= self.ultima_jugada {
            ahora - self.ultima_jugada
        } else {
            0
        }
    }
}

} // verus!
