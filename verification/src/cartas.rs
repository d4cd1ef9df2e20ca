//! Modelo de cartas: palo, carta y sus órdenes totales.

use vstd::prelude::*;
use vstd::string::StringExecFns;

verus! {

/// Los cuatro palos de la baraja española.
#[derive(Clone, Copy, Debug, PartialEq, Eq, Structural)]
pub enum Palo {
    Copa,
    Espada,
    Oro,
    Basto,
}

/// Índice numérico de cada palo, en el orden de declaración.
pub open spec fn indice_palo(p: Palo) -> int {
    match p {
        Palo::Copa => 0,
        Palo::Espada => 1,
        Palo::Oro => 2,
        Palo::Basto => 3,
    }
}

/// Nombre en texto de cada palo.
pub open spec fn nombre_palo(p: Palo) -> Seq<char> {
    match p {
        Palo::Copa => "copas"@,
        Palo::Espada => "espada"@,
        Palo::Oro => "oro"@,
        Palo::Basto => "basto"@,
    }
}

impl Palo {
    /// Índice ejecutable, coincide con `indice_palo`.
    pub fn indice(&self) -> (r: u8)
        ensures
            r as int == indice_palo(*self),
    {
        match self {
            Palo::Copa => 0,
            Palo::Espada => 1,
            Palo::Oro => 2,
            Palo::Basto => 3,
        }
    }

    /// Nombre del palo en texto.
    pub fn nombre(&self) -> (r: &'static str)
        ensures
            r@ == nombre_palo(*self),
    {
        match self {
            Palo::Copa => "copas",
            Palo::Espada => "espada",
            Palo::Oro => "oro",
            Palo::Basto => "basto",
        }
    }
}

/// Una carta: número de 1 a 12 y palo.
#[derive(Clone, Copy, Debug, PartialEq, Eq, Structural)]
pub struct Carta {
    pub num: u8,
    pub palo: Palo,
}

/// Una carta válida de la baraja lleva un número entre 1 y 12.
pub open spec fn carta_valida(c: Carta) -> bool {
    1 <= c.num <= 12
}

/// Todas las cartas de la secuencia son válidas.
pub open spec fn cartas_validas(s: Seq<Carta>) -> bool {
    forall|i: int| 0 <= i < s.len() ==> carta_valida(#[trigger] s[i])
}

/// Clave del orden en que se mantiene una mano: primero número, luego palo.
pub open spec fn clave_mano(c: Carta) -> int {
    c.num * 4 + indice_palo(c.palo)
}

/// Clave del orden usado al buscar escaleras: primero palo, luego número.
pub open spec fn clave_palo_num(c: Carta) -> int {
    indice_palo(c.palo) * 256 + c.num
}

/// La clave de mano identifica a la carta.
pub proof fn lema_clave_mano_inyectiva(a: Carta, b: Carta)
    requires
        clave_mano(a) == clave_mano(b),
    ensures
        a == b,
{
    assert(indice_palo(a.palo) == indice_palo(b.palo) && a.num == b.num);
    assert(a.palo == b.palo);
}

/// La clave palo-número identifica a la carta.
pub proof fn lema_clave_palo_num_inyectiva(a: Carta, b: Carta)
    requires
        clave_palo_num(a) == clave_palo_num(b),
    ensures
        a == b,
{
    assert(indice_palo(a.palo) == indice_palo(b.palo) && a.num == b.num);
    assert(a.palo == b.palo);
}

/// Texto decimal de los números de carta.
pub open spec fn texto_num(n: u8) -> Seq<char> {
    match n {
        1u8 => "1"@,
        2u8 => "2"@,
        3u8 => "3"@,
        4u8 => "4"@,
        5u8 => "5"@,
        6u8 => "6"@,
        7u8 => "7"@,
        8u8 => "8"@,
        9u8 => "9"@,
        10u8 => "10"@,
        11u8 => "11"@,
        _ => "12"@,
    }
}

/// Copia un vector de cartas.
pub(crate) fn copiar_cartas(v: &Vec<Carta>) -> (r: Vec<Carta>)
    ensures
        r@ == v@,
{
    let mut r: Vec<Carta> = Vec::new();
    let mut i: usize = 0;
    while i < v.len()
        invariant
            0 <= i <= v@.len(),
            r@ == v@.subrange(0, i as int),
        decreases v@.len() - i,
    {
        r.push(v[i]);
        proof {
            assert(v@.subrange(0, i as int).push(v@[i as int]) =~= v@.subrange(0, i + 1));
        }
        i += 1;
    }
    proof {
        assert(v@.subrange(0, v@.len() as int) =~= v@);
    }
    r
}

impl Carta {
    /// Clave de mano ejecutable; nunca desborda porque `num <= 255`.
    pub fn clave_mano_exec(&self) -> (r: u16)
        ensures
            r as int == clave_mano(*self),
    {
        self.num as u16 * 4 + self.palo.indice() as u16
    }

    /// Clave palo-número ejecutable.
    pub fn clave_palo_num_exec(&self) -> (r: u16)
        ensures
            r as int == clave_palo_num(*self),
    {
        self.palo.indice() as u16 * 256 + self.num as u16
    }

    /// Nombre legible de la carta: "<numero> de <palo>".
    pub fn nombre(&self) -> (r: String)
        requires
            carta_valida(*self),
        ensures
            r@ == texto_num(self.num) + " de "@ + nombre_palo(self.palo),
    {
        let num_texto: &str = match self.num {
            1u8 => "1",
            2u8 => "2",
            3u8 => "3",
            4u8 => "4",
            5u8 => "5",
            6u8 => "6",
            7u8 => "7",
            8u8 => "8",
            9u8 => "9",
            10u8 => "10",
            11u8 => "11",
            _ => "12",
        };
        let r = String::from_str(num_texto).concat(" de ").concat(self.palo.nombre());
        r
    }
}

} // verus!

verus! {

/// Fallas al leer una carta desde texto.
#[derive(Debug)]
pub enum CartaFromStrErr {
    CodigoNoEncontrado,
    PaloInvalido(String),
    NumeroInvalido(u8),
}

/// Falla al leer un palo desde texto: guarda el texto rechazado.
#[derive(Debug)]
pub struct PaloFromStrError {
    pub string: String,
}

/// Pasa una letra ASCII mayúscula a minúscula; deja igual lo demás.
pub open spec fn minuscula(c: char) -> char {
    if 'A' <= c && c <= 'Z' {
        ((c as u8) + 32) as char
    } else {
        c
    }
}

/// El texto con sus letras ASCII en minúscula.
pub open spec fn minusculas(s: Seq<char>) -> Seq<char> {
    s.map_values(|c: char| minuscula(c))
}

/// ¿Es un dígito decimal?
pub open spec fn es_digito(c: char) -> bool {
    '0' <= c && c <= '9'
}

/// Valor de un dígito decimal.
pub open spec fn valor_digito(c: char) -> int {
    c as int - '0' as int
}

/// ¿Es una letra minúscula?
pub open spec fn es_letra(c: char) -> bool {
    'a' <= c && c <= 'z'
}

/// Nombre de palo que acepta el texto (ya en minúsculas): nombre completo,
/// abreviatura o inicial.
pub open spec fn palo_de_texto(t: Seq<char>) -> Option<Palo> {
    if t == "o"@ || t == "oro"@ {
        Some(Palo::Oro)
    } else if t == "e"@ || t == "esp"@ || t == "espada"@ || t == "espadas"@ {
        Some(Palo::Espada)
    } else if t == "c"@ || t == "copa"@ || t == "copas"@ {
        Some(Palo::Copa)
    } else if t == "b"@ || t == "basto"@ || t == "bastos"@ || t == "p"@ || t == "palo"@ || t
        == "palos"@ {
        Some(Palo::Basto)
    } else {
        None
    }
}

/// Fin de la corrida de letras que empieza en `j`.
pub open spec fn fin_letras(t: Seq<char>, j: int) -> int
    decreases t.len() - j when 0 <= j <= t.len()
{
    if j < t.len() && es_letra(t[j]) {
        fin_letras(t, j + 1)
    } else {
        j
    }
}

/// Dónde termina el número que empieza en `i`: toma uno o dos dígitos.
pub open spec fn fin_numero(t: Seq<char>, i: int) -> int {
    if i + 1 < t.len() && es_digito(t[i + 1]) {
        i + 2
    } else {
        i + 1
    }
}

/// Valor del número leído en `[i, fin_numero)`.
pub open spec fn valor_numero(t: Seq<char>, i: int) -> int {
    if i + 1 < t.len() && es_digito(t[i + 1]) {
        valor_digito(t[i]) * 10 + valor_digito(t[i + 1])
    } else {
        valor_digito(t[i])
    }
}

/// Tras el número puede venir un espacio.
pub open spec fn tras_espacio(t: Seq<char>, j: int) -> int {
    if j < t.len() && t[j] == ' ' {
        j + 1
    } else {
        j
    }
}

/// Tras el espacio puede venir "de " o "d ", si después sigue una letra.
pub open spec fn tras_de(t: Seq<char>, j: int) -> int {
    if j + 3 < t.len() && t[j] == 'd' && t[j + 1] == 'e' && t[j + 2] == ' ' && es_letra(t[j + 3]) {
        j + 3
    } else if j + 2 < t.len() && t[j] == 'd' && t[j + 1] == ' ' && es_letra(t[j + 2]) {
        j + 2
    } else {
        j
    }
}

/// Dónde empieza el nombre del palo para un número que arranca en `i`.
pub open spec fn comienzo_palo(t: Seq<char>, i: int) -> int {
    tras_de(t, tras_espacio(t, fin_numero(t, i)))
}

/// ¿Se reconoce en `i` un número seguido de al menos una letra?
pub open spec fn codigo_en(t: Seq<char>, i: int) -> bool {
    &&& 0 <= i < t.len()
    &&& es_digito(t[i])
    &&& fin_letras(t, comienzo_palo(t, i)) > comienzo_palo(t, i)
}

/// La primera posición desde `desde` donde se reconoce un código de carta.
pub open spec fn primer_codigo(t: Seq<char>, desde: int) -> Option<int>
    decreases t.len() - desde when 0 <= desde <= t.len()
{
    if desde >= t.len() {
        None
    } else if codigo_en(t, desde) {
        Some(desde)
    } else {
        primer_codigo(t, desde + 1)
    }
}

/// El resultado que el texto determina: sin código reconocible no hay carta;
/// con un número fuera de 1..12 el número es inválido; con un nombre de palo
/// desconocido el palo es inválido (y se informa ese tramo del texto tal como
/// vino); si no, la carta leída.
pub open spec fn carta_de_texto(s: Seq<char>) -> Result<Carta, CartaFromStrErr> {
    let t = minusculas(s);
    match primer_codigo(t, 0) {
        None => Err(CartaFromStrErr::CodigoNoEncontrado),
        Some(i) => {
            let num = valor_numero(t, i);
            let desde = comienzo_palo(t, i);
            let hasta = fin_letras(t, desde);
            if num == 0 || num > 12 {
                Err(CartaFromStrErr::NumeroInvalido(num as u8))
            } else {
                match palo_de_texto(t.subrange(desde, hasta)) {
                    Some(palo) => Ok(Carta { num: num as u8, palo }),
                    None => Err(CartaFromStrErr::PaloInvalido(arbitrary())),
                }
            }
        },
    }
}

/// ¿Describen el resultado ejecutable y el del texto la misma respuesta?
/// (El texto rechazado dentro de `PaloInvalido` se compara aparte.)
pub open spec fn respuesta_coincide(
    r: Result<Carta, CartaFromStrErr>,
    e: Result<Carta, CartaFromStrErr>,
) -> bool {
    match r {
        Ok(c) => e is Ok && e->Ok_0 == c,
        Err(CartaFromStrErr::CodigoNoEncontrado) => e matches Err(
            CartaFromStrErr::CodigoNoEncontrado,
        ),
        Err(CartaFromStrErr::NumeroInvalido(n)) => e matches Err(
            CartaFromStrErr::NumeroInvalido(m),
        ) && m == n,
        Err(CartaFromStrErr::PaloInvalido(_)) => e matches Err(CartaFromStrErr::PaloInvalido(_)),
    }
}

} // verus!

verus! {

/// Confía en `str::to_ascii_lowercase` de std: pasa cada letra ASCII
/// mayúscula a su minúscula y deja igual los demás caracteres, uno a uno.
#[verifier::external_body]
fn a_minusculas(s: &str) -> (r: String)
    ensures
        r@ == minusculas(s@),
{
    s.to_ascii_lowercase()
}

/// Versión ejecutable del paso a minúscula.
fn minuscula_exec(c: char) -> (r: char)
    ensures
        r == minuscula(c),
{
    if 'A' <= c && c <= 'Z' {
        ((c as u8) + 32) as char
    } else {
        c
    }
}

/// Carácter `i` del texto, ya en minúscula.
fn letra_en(s: &str, i: usize) -> (r: char)
    requires
        i < s@.len(),
    ensures
        r == minusculas(s@)[i as int],
{
    minuscula_exec(s.get_char(i))
}

/// ¿Coincide el tramo `[desde, hasta)` del texto, en minúsculas, con el
/// alias dado?
#[verifier::loop_isolation(false)]
fn es_tramo(s: &str, desde: usize, hasta: usize, alias: &str) -> (r: bool)
    requires
        desde <= hasta <= s@.len(),
    ensures
        r == (minusculas(s@).subrange(desde as int, hasta as int) == alias@),
{
    let ghost t = minusculas(s@);
    let ghost tramo = t.subrange(desde as int, hasta as int);
    let largo_alias = alias.unicode_len();
    if hasta - desde != largo_alias {
        proof {
            assert(tramo.len() != alias@.len());
        }
        return false;
    }
    let mut k: usize = 0;
    while k < largo_alias
        invariant
            0 <= k <= largo_alias,
            forall|q: int| 0 <= q < k ==> tramo[q] == alias@[q],
        decreases largo_alias - k,
    {
        let a = letra_en(s, desde + k);
        let b = alias.get_char(k);
        if a != b {
            proof {
                assert(tramo[k as int] == t[desde + k]);
            }
            return false;
        }
        proof {
            assert(tramo[k as int] == t[desde + k]);
        }
        k += 1;
    }
    proof {
        assert(tramo =~= alias@);
    }
    true
}

impl Palo {
    /// Lee un palo desde texto: acepta el nombre completo, abreviaturas o la
    /// inicial, sin distinguir mayúsculas; si no reconoce el texto, lo
    /// devuelve dentro del error.
    pub fn parse(s: &str) -> (r: Result<Palo, PaloFromStrError>)
        ensures
            match palo_de_texto(minusculas(s@)) {
                Some(p) => r is Ok && r->Ok_0 == p,
                None => r is Err && r->Err_0.string@ == s@,
            },
    {
        let n = s.unicode_len();
        proof {
            assert(minusculas(s@).subrange(0, n as int) =~= minusculas(s@));
        }
        if es_tramo(s, 0, n, "o") || es_tramo(s, 0, n, "oro") {
            Ok(Palo::Oro)
        } else if es_tramo(s, 0, n, "e") || es_tramo(s, 0, n, "esp") || es_tramo(s, 0, n, "espada")
            || es_tramo(s, 0, n, "espadas") {
            Ok(Palo::Espada)
        } else if es_tramo(s, 0, n, "c") || es_tramo(s, 0, n, "copa") || es_tramo(s, 0, n, "copas") {
            Ok(Palo::Copa)
        } else if es_tramo(s, 0, n, "b") || es_tramo(s, 0, n, "basto") || es_tramo(s, 0, n, "bastos")
            || es_tramo(s, 0, n, "p") || es_tramo(s, 0, n, "palo") || es_tramo(s, 0, n, "palos") {
            Ok(Palo::Basto)
        } else {
            Err(PaloFromStrError { string: s.to_owned() })
        }
    }
}

} // verus!

verus! {

/// Versión ejecutable del fin de la corrida de letras.
fn fin_letras_exec(s: &str, desde: usize, n: usize) -> (r: usize)
    requires
        desde <= n,
        n == s@.len(),
    ensures
        r as int == fin_letras(minusculas(s@), desde as int),
        desde <= r <= n,
    decreases n - desde,
{
    if desde < n {
        let cl = letra_en(s, desde);
        if 'a' <= cl && cl <= 'z' {
            return fin_letras_exec(s, desde + 1, n);
        }
    }
    desde
}

impl Carta {
    /// Lee una carta desde texto: busca el primer número (una o dos cifras),
    /// saltea un espacio y un "de" opcionales, y toma la corrida de letras
    /// que sigue como nombre del palo. Devuelve la carta que el texto
    /// determina, o el error que corresponda.
    #[verifier::loop_isolation(false)]
    #[verifier::rlimit(100)]
    pub fn parse(s: &str) -> (r: Result<Carta, CartaFromStrErr>)
        ensures
            respuesta_coincide(r, carta_de_texto(s@)),
            (r matches Err(CartaFromStrErr::PaloInvalido(x)) ==> {
                let t = minusculas(s@);
                let i = primer_codigo(t, 0)->0;
                x@ == t.subrange(comienzo_palo(t, i), fin_letras(t, comienzo_palo(t, i)))
            }),
    {
        let ghost t = minusculas(s@);
        let n = s.unicode_len();
        let mut i: usize = 0;
        while i < n
            invariant
                0 <= i <= n,
                n == t.len(),
                primer_codigo(t, 0) == primer_codigo(t, i as int),
            decreases n - i,
        {
            let c0 = letra_en(s, i);
            if '0' <= c0 && c0 <= '9' {
                let dos = i + 1 < n && {
                    let c1 = letra_en(s, i + 1);
                    '0' <= c1 && c1 <= '9'
                };
                let fin_num = if dos {
                    i + 2
                } else {
                    i + 1
                };
                proof {
                    assert(fin_num as int == fin_numero(t, i as int));
                }
                let val: u8 = if dos {
                    (c0 as u8 - 48) * 10 + (letra_en(s, i + 1) as u8 - 48)
                } else {
                    c0 as u8 - 48
                };
                proof {
                    assert(val as int == valor_numero(t, i as int));
                }
                let j1 = if fin_num < n && letra_en(s, fin_num) == ' ' {
                    fin_num + 1
                } else {
                    fin_num
                };
                proof {
                    assert(j1 as int == tras_espacio(t, fin_num as int));
                }
                let j2 = if n - j1 > 3 && letra_en(s, j1) == 'd' && letra_en(s, j1 + 1) == 'e'
                    && letra_en(s, j1 + 2) == ' ' && {
                    let cl = letra_en(s, j1 + 3);
                    'a' <= cl && cl <= 'z'
                } {
                    j1 + 3
                } else if n - j1 > 2 && letra_en(s, j1) == 'd' && letra_en(s, j1 + 1) == ' ' && {
                    let cl = letra_en(s, j1 + 2);
                    'a' <= cl && cl <= 'z'
                } {
                    j1 + 2
                } else {
                    j1
                };
                proof {
                    assert(j2 as int == tras_de(t, j1 as int));
                    assert(j2 as int == comienzo_palo(t, i as int));
                }
                let fin = fin_letras_exec(s, j2, n);
                proof {
                    assert(fin_letras(t, j2 as int) == fin as int);
                }
                if fin > j2 {
                    proof {
                        assert(codigo_en(t, i as int));
                        assert(primer_codigo(t, i as int) == Some(i as int));
                    }
                    if val == 0 || val > 12 {
                        return Err(CartaFromStrErr::NumeroInvalido(val));
                    }
                    let palo = if es_tramo(s, j2, fin, "o") || es_tramo(s, j2, fin, "oro") {
                        Some(Palo::Oro)
                    } else if es_tramo(s, j2, fin, "e") || es_tramo(s, j2, fin, "esp") || es_tramo(
                        s,
                        j2,
                        fin,
                        "espada",
                    ) || es_tramo(s, j2, fin, "espadas") {
                        Some(Palo::Espada)
                    } else if es_tramo(s, j2, fin, "c") || es_tramo(s, j2, fin, "copa") || es_tramo(
                        s,
                        j2,
                        fin,
                        "copas",
                    ) {
                        Some(Palo::Copa)
                    } else if es_tramo(s, j2, fin, "b") || es_tramo(s, j2, fin, "basto")
                        || es_tramo(s, j2, fin, "bastos") || es_tramo(s, j2, fin, "p") || es_tramo(
                        s,
                        j2,
                        fin,
                        "palo",
                    ) || es_tramo(s, j2, fin, "palos") {
                        Some(Palo::Basto)
                    } else {
                        None
                    };
                    proof {
                        assert(palo == palo_de_texto(t.subrange(j2 as int, fin as int)));
                    }
                    match palo {
                        Some(p) => {
                            return Ok(Carta { num: val, palo: p });
                        },
                        None => {
                            let texto = a_minusculas(s.substring_char(j2, fin));
                            proof {
                                assert(texto@ =~= t.subrange(j2 as int, fin as int));
                            }
                            return Err(CartaFromStrErr::PaloInvalido(texto));
                        },
                    }
                }
                proof {
                    assert(!codigo_en(t, i as int));
                }
            } else {
                proof {
                    assert(!es_digito(t[i as int]));
                    assert(!codigo_en(t, i as int));
                }
            }
            i += 1;
        }
        proof {
            assert(primer_codigo(t, n as int) is None);
        }
        Err(CartaFromStrErr::CodigoNoEncontrado)
    }
}

} // verus!
