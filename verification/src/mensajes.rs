//! Textos para mostrar cartas a un jugador.

use vstd::prelude::*;
use vstd::string::{StrSliceExecFns, StringExecFns};
use crate::cartas::{Carta, cartas_validas, nombre_palo, texto_num};
use crate::estadisticas::EstadisticasJugador;

verus! {

/// El nombre completo de una carta.
pub open spec fn texto_carta(c: Carta) -> Seq<char> {
    texto_num(c.num) + " de "@ + nombre_palo(c.palo)
}

/// Los nombres de las cartas, unidos con el separador de columnas.
pub open spec fn texto_unido(s: Seq<Carta>) -> Seq<char>
    decreases s.len(),
{
    if s.len() == 0 {
        Seq::empty()
    } else if s.len() == 1 {
        texto_carta(s[0])
    } else {
        texto_unido(s.drop_last()) + " │ "@ + texto_carta(s.last())
    }
}

/// La lista de cartas entre barras, como una fila de tabla.
pub open spec fn texto_lista(s: Seq<Carta>) -> Seq<char> {
    "│ "@ + texto_unido(s) + " │"@
}

/// Arma la fila de texto con los nombres de las cartas.
#[verifier::loop_isolation(false)]
pub fn lista_cartas(cartas: &Vec<Carta>) -> (r: String)
    requires
        cartas_validas(cartas@),
    ensures
        r@ == texto_lista(cartas@),
{
    let mut interior = String::new();
    let mut i: usize = 0;
    while i < cartas.len()
        invariant
            0 <= i <= cartas@.len(),
            interior@ == texto_unido(cartas@.subrange(0, i as int)),
        decreases cartas@.len() - i,
    {
        proof {
            assert(cartas@.subrange(0, i + 1).drop_last() =~= cartas@.subrange(0, i as int));
            assert(cartas@.subrange(0, i + 1).last() == cartas@[i as int]);
        }
        if i > 0 {
            interior.append(" │ ");
        }
        let nombre = cartas[i].nombre();
        interior.append(nombre.as_str());
        proof {
            if i == 0 {
                assert(texto_unido(cartas@.subrange(0, 1)) == texto_carta(cartas@[0]));
                assert(interior@ =~= texto_unido(cartas@.subrange(0, 1)));
            } else {
                assert(interior@ =~= texto_unido(cartas@.subrange(0, i + 1)));
            }
        }
        i += 1;
    }
    proof {
        assert(cartas@.subrange(0, cartas@.len() as int) =~= cartas@);
    }
    let r = String::from_str("│ ").concat(interior.as_str()).concat(" │");
    proof {
        assert(r@ =~= texto_lista(cartas@));
    }
    r
}

/// El mensaje con el que un jugador ve sus propias cartas.
pub fn mensaje_cartas(cartas: &Vec<Carta>) -> (r: String)
    requires
        cartas_validas(cartas@),
    ensures
        r@ == "Tus cartas: "@ + texto_lista(cartas@),
{
    let lista = lista_cartas(cartas);
    let r = String::from_str("Tus cartas: ").concat(lista.as_str());
    r
}

} // verus!

verus! {

/// El dígito decimal `d` como carácter.
pub open spec fn digito_de(d: nat) -> char
    recommends
        d < 10,
{
    (('0' as u8) + d as u8) as char
}

/// El número en base diez, sin signo ni relleno.
pub open spec fn texto_decimal(n: nat) -> Seq<char>
    decreases n,
{
    if n < 10 {
        seq![digito_de(n)]
    } else {
        texto_decimal(n / 10).push(digito_de(n % 10))
    }
}

/// Confía en el formato decimal de `u64` de std (vía `format!`): escribe los
/// dígitos del número en base diez, sin signo ni relleno.
#[verifier::external_body]
fn texto_u64(n: u64) -> (r: String)
    ensures
        r@ == texto_decimal(n as nat),
{
    format!("{}", n)
}

/// La sección de estadísticas de un jugador: el título, cuántas partidas
/// jugó y, si jugó alguna, cuántas ganó y qué porcentaje es.
pub open spec fn texto_seccion(nombre: Seq<char>, victorias: u64, derrotas: u64) -> Seq<char> {
    let total = victorias + derrotas;
    let base = "**"@ + nombre + ":**\n**Partidas:** "@ + texto_decimal(total as nat);
    if total > 0 {
        base + "\n**Ganadas:** "@ + texto_decimal(victorias as nat) + " ("@ + texto_decimal(
            (victorias * 100 / total) as nat,
        ) + " %)"@
    } else {
        base
    }
}

/// Arma la sección de estadísticas con ese título.
pub fn seccion_tabla(nombre: &str, stats: &EstadisticasJugador) -> (r: String)
    requires
        stats.victorias + stats.derrotas <= u64::MAX,
        stats.victorias * 100 <= u64::MAX,
    ensures
        r@ == texto_seccion(nombre@, stats.victorias, stats.derrotas),
{
    let total = stats.victorias + stats.derrotas;
    let mut texto = String::from_str("**").concat(nombre).concat(":**\n**Partidas:** ");
    let total_texto = texto_u64(total);
    texto.append(total_texto.as_str());
    if total > 0 {
        let victorias_texto = texto_u64(stats.victorias);
        let porcentaje_texto = texto_u64(stats.victorias * 100 / total);
        texto.append("\n**Ganadas:** ");
        texto.append(victorias_texto.as_str());
        texto.append(" (");
        texto.append(porcentaje_texto.as_str());
        texto.append(" %)");
    }
    proof {
        assert(texto@ =~= texto_seccion(nombre@, stats.victorias, stats.derrotas));
    }
    texto
}

} // verus!
