//! Buscador de juegos: qué es una escalera o un grupo, qué selecciones de
//! juegos son válidas sobre una mano, y la búsqueda de la selección de peso
//! máximo (con desempate por menor cantidad de juegos).

use vstd::prelude::*;
use crate::cartas::{
    Carta, Palo, carta_valida, cartas_validas, clave_mano, clave_palo_num, copiar_cartas,
    indice_palo, lema_clave_mano_inyectiva, lema_clave_palo_num_inyectiva,
};
use crate::conteo::{
    cuenta, lema_cuenta_concat, lema_cuenta_contiene,
    lema_cuenta_filter, lema_cuenta_insert, lema_mismo_conteo_sin_duplicados, lema_permutacion,
    lema_sin_duplicados_cuenta,
    lema_suma_concat,
    lema_suma_mismo_conteo, lema_suma_no_negativa, lema_suma_sub_conteo, mismo_conteo, sub_conteo,
    suma_nums,
};

verus! {

/// Una escalera: de 3 a 7 cartas del mismo palo con números consecutivos
/// crecientes.
pub open spec fn es_escalera(j: Seq<Carta>) -> bool {
    &&& 3 <= j.len() <= 7
    &&& forall|i: int|
        0 <= i < j.len() ==> (#[trigger] j[i]).palo == j[0].palo && j[i].num == j[0].num + i
}

/// Un grupo: 3 o 4 cartas distintas del mismo número.
pub open spec fn es_grupo(j: Seq<Carta>) -> bool {
    &&& j.len() == 3 || j.len() == 4
    &&& forall|i: int| 0 <= i < j.len() ==> (#[trigger] j[i]).num == j[0].num
    &&& j.no_duplicates()
}

/// Un juego válido es una escalera o un grupo.
pub open spec fn es_juego_valido(j: Seq<Carta>) -> bool {
    es_escalera(j) || es_grupo(j)
}

/// Todas las cartas del juego `j` aparecen en la mano.
pub open spec fn juego_de(j: Seq<Carta>, mano: Seq<Carta>) -> bool {
    forall|i: int| 0 <= i < j.len() ==> mano.contains(#[trigger] j[i])
}

/// `a` y `b` no comparten ninguna carta.
pub open spec fn sin_solape(a: Seq<Carta>, b: Seq<Carta>) -> bool {
    forall|i: int| 0 <= i < a.len() ==> !b.contains(#[trigger] a[i])
}

/// Las vistas de una lista de listas de cartas.
pub open spec fn vista2(s: Seq<Vec<Carta>>) -> Seq<Seq<Carta>> {
    s.map_values(|v: Vec<Carta>| v@)
}

/// Ningún par de juegos de la selección comparte cartas.
pub open spec fn seleccion_disjunta(sel: Seq<Seq<Carta>>) -> bool {
    forall|i: int, k: int|
        0 <= i < k < sel.len() ==> sin_solape(#[trigger] sel[i], #[trigger] sel[k])
}

/// Cada juego de la selección es (por valor) uno de los candidatos.
pub open spec fn de_candidatos(sel: Seq<Seq<Carta>>, cs: Seq<Seq<Carta>>) -> bool {
    forall|i: int| 0 <= i < sel.len() ==> cs.contains(#[trigger] sel[i])
}

/// Selección válida sobre una lista de candidatos: juegos de la lista que no
/// comparten cartas entre sí.
pub open spec fn seleccion_de_candidatos(sel: Seq<Seq<Carta>>, cs: Seq<Seq<Carta>>) -> bool {
    de_candidatos(sel, cs) && seleccion_disjunta(sel)
}

/// Selección válida sobre una mano: juegos válidos formados con cartas de la
/// mano que no comparten cartas entre sí.
pub open spec fn seleccion_de_mano(sel: Seq<Seq<Carta>>, mano: Seq<Carta>) -> bool {
    &&& forall|i: int|
        0 <= i < sel.len() ==> es_juego_valido(#[trigger] sel[i]) && juego_de(sel[i], mano)
    &&& seleccion_disjunta(sel)
}

/// Peso de una selección: la suma de los números de todas sus cartas.
pub open spec fn peso_sel(sel: Seq<Seq<Carta>>) -> int
    decreases sel.len(),
{
    if sel.len() == 0 {
        0
    } else {
        peso_sel(sel.drop_last()) + suma_nums(sel.last())
    }
}

/// Concatenación de todas las cartas de una selección.
pub open spec fn conc(sel: Seq<Seq<Carta>>) -> Seq<Carta>
    decreases sel.len(),
{
    if sel.len() == 0 {
        Seq::empty()
    } else {
        conc(sel.drop_last()) + sel.last()
    }
}

/// La carta `c` aparece en alguno de los juegos de la selección.
pub open spec fn en_sel(c: Carta, sel: Seq<Seq<Carta>>) -> bool {
    exists|i: int| 0 <= i < sel.len() && (#[trigger] sel[i]).contains(c)
}

/// Un juego válido no repite cartas.
pub proof fn lema_juego_sin_duplicados(j: Seq<Carta>)
    requires
        es_juego_valido(j),
    ensures
        j.no_duplicates(),
        j.len() >= 3,
{
    if es_escalera(j) {
        assert forall|i: int, k: int| 0 <= i < k < j.len() implies j[i] != j[k] by {
            assert(j[i].num == j[0].num + i);
            assert(j[k].num == j[0].num + k);
        }
    }
}

/// No compartir cartas es simétrico.
pub proof fn lema_sin_solape_sim(a: Seq<Carta>, b: Seq<Carta>)
    requires
        sin_solape(a, b),
    ensures
        sin_solape(b, a),
{
    assert forall|i: int| 0 <= i < b.len() implies !a.contains(b[i]) by {
        if a.contains(b[i]) {
            let k = choose|k: int| 0 <= k < a.len() && a[k] == b[i];
            assert(b.contains(a[k]));
        }
    }
}

/// El peso de una concatenación de selecciones es la suma de los pesos.
pub proof fn lema_peso_concat(a: Seq<Seq<Carta>>, b: Seq<Seq<Carta>>)
    ensures
        peso_sel(a + b) == peso_sel(a) + peso_sel(b),
    decreases b.len(),
{
    if b.len() == 0 {
        assert(a + b =~= a);
    } else {
        lema_peso_concat(a, b.drop_last());
        assert((a + b).drop_last() =~= a + b.drop_last());
        assert(peso_sel(a + b) == peso_sel(a + b.drop_last()) + suma_nums(b.last()));
    }
}

/// Quitar un juego resta su suma del peso de la selección.
pub proof fn lema_peso_remove(sel: Seq<Seq<Carta>>, i: int)
    requires
        0 <= i < sel.len(),
    ensures
        peso_sel(sel) == peso_sel(sel.remove(i)) + suma_nums(sel[i]),
{
    let ini = sel.subrange(0, i);
    let medio = sel.subrange(i, i + 1);
    let fin = sel.subrange(i + 1, sel.len() as int);
    assert(sel =~= (ini + medio) + fin);
    assert(sel.remove(i) =~= ini + fin);
    lema_peso_concat(ini + medio, fin);
    lema_peso_concat(ini, medio);
    lema_peso_concat(ini, fin);
    assert(peso_sel(medio) == suma_nums(medio[0])) by {
        assert(peso_sel(medio.drop_last()) == 0);
        assert(medio.last() == medio[0]);
    }
    assert(medio[0] == sel[i]);
}

/// Una selección disjunta sigue siendo disjunta al quitarle un juego.
pub proof fn lema_disjunta_remove(sel: Seq<Seq<Carta>>, i: int)
    requires
        0 <= i < sel.len(),
        seleccion_disjunta(sel),
    ensures
        seleccion_disjunta(sel.remove(i)),
{
    sel.remove_ensures(i);
    let r = sel.remove(i);
    assert forall|a: int, b: int| 0 <= a < b < r.len() implies sin_solape(r[a], r[b]) by {
        let a2: int = if a < i {
            a
        } else {
            a + 1
        };
        let b2: int = if b < i {
            b
        } else {
            b + 1
        };
        assert(r[a] == sel[a2] && r[b] == sel[b2]);
        assert(sin_solape(sel[a2], sel[b2]));
    }
}

/// En una selección de juegos sin duplicados y disjuntos entre sí, cada carta
/// aparece a lo sumo una vez en la concatenación: exactamente una vez si está
/// en algún juego, ninguna si no.
pub proof fn lema_conc_cuenta(sel: Seq<Seq<Carta>>)
    requires
        forall|i: int| 0 <= i < sel.len() ==> (#[trigger] sel[i]).no_duplicates(),
        seleccion_disjunta(sel),
    ensures
        forall|c: Carta|
            #[trigger] cuenta(conc(sel), c) == if en_sel(c, sel) {
                1nat
            } else {
                0nat
            },
    decreases sel.len(),
{
    if sel.len() > 0 {
        let sel2 = sel.drop_last();
        let ult = sel.last();
        assert(forall|i: int| 0 <= i < sel2.len() ==> sel2[i] == sel[i]);
        lema_conc_cuenta(sel2);
        lema_cuenta_concat(conc(sel2), ult);
        lema_sin_duplicados_cuenta(ult);
        lema_cuenta_contiene(ult);
        assert forall|c: Carta|
            cuenta(conc(sel), c) == (if en_sel(c, sel) {
                1nat
            } else {
                0nat
            }) by {
            assert(cuenta(conc(sel), c) == cuenta(conc(sel2), c) + cuenta(ult, c));
            if ult.contains(c) {
                assert(cuenta(ult, c) == 1);
                assert(!en_sel(c, sel2)) by {
                    if en_sel(c, sel2) {
                        let i = choose|i: int| 0 <= i < sel2.len() && sel2[i].contains(c);
                        assert(sin_solape(sel[i], sel[sel.len() - 1]));
                        let k = choose|k: int| 0 <= k < sel[i].len() && sel[i][k] == c;
                        assert(!ult.contains(sel[i][k]));
                    }
                }
                assert(en_sel(c, sel)) by {
                    assert(sel[sel.len() - 1].contains(c));
                }
            } else {
                assert(cuenta(ult, c) == 0);
                assert(en_sel(c, sel) <==> en_sel(c, sel2)) by {
                    if en_sel(c, sel) {
                        let i = choose|i: int| 0 <= i < sel.len() && sel[i].contains(c);
                        assert(i < sel.len() - 1);
                        assert(sel2[i].contains(c));
                    }
                    if en_sel(c, sel2) {
                        let i = choose|i: int| 0 <= i < sel2.len() && sel2[i].contains(c);
                        assert(sel[i].contains(c));
                    }
                }
            }
        }
    } else {
        assert forall|c: Carta|
            cuenta(conc(sel), c) == (if en_sel(c, sel) {
                1nat
            } else {
                0nat
            }) by {
            assert(!en_sel(c, sel));
        }
    }
}

/// El peso de una selección es la suma de su concatenación.
pub proof fn lema_peso_es_suma_conc(sel: Seq<Seq<Carta>>)
    ensures
        peso_sel(sel) == suma_nums(conc(sel)),
    decreases sel.len(),
{
    if sel.len() > 0 {
        lema_peso_es_suma_conc(sel.drop_last());
        lema_suma_concat(conc(sel.drop_last()), sel.last());
    }
}

/// Las cartas de una selección sobre una mano sin duplicados son un
/// sub-multiconjunto de la mano; en particular su peso no supera la suma de
/// la mano.
pub proof fn lema_seleccion_sub_conteo(sel: Seq<Seq<Carta>>, mano: Seq<Carta>)
    requires
        seleccion_de_mano(sel, mano),
        mano.no_duplicates(),
    ensures
        sub_conteo(conc(sel), mano),
        peso_sel(sel) <= suma_nums(mano),
{
    assert forall|i: int| 0 <= i < sel.len() implies (#[trigger] sel[i]).no_duplicates() by {
        lema_juego_sin_duplicados(sel[i]);
    }
    lema_conc_cuenta(sel);
    lema_cuenta_contiene(mano);
    assert forall|c: Carta| cuenta(conc(sel), c) <= cuenta(mano, c) by {
        if en_sel(c, sel) {
            let i = choose|i: int| 0 <= i < sel.len() && sel[i].contains(c);
            let k = choose|k: int| 0 <= k < sel[i].len() && sel[i][k] == c;
            assert(mano.contains(sel[i][k]));
            assert(cuenta(mano, c) > 0);
        }
    }
    lema_suma_sub_conteo(conc(sel), mano);
    lema_peso_es_suma_conc(sel);
}

/// Partición de la mano: la suma de la mano es el peso de la selección más la
/// suma de las cartas sobrantes (las que no están en ningún juego elegido).
pub proof fn lema_particion(sel: Seq<Seq<Carta>>, mano: Seq<Carta>)
    requires
        seleccion_de_mano(sel, mano),
        mano.no_duplicates(),
    ensures
        suma_nums(mano) == peso_sel(sel) + suma_nums(mano.filter(|c: Carta| !en_sel(c, sel))),
{
    let pred = |c: Carta| !en_sel(c, sel);
    let sobras = mano.filter(pred);
    assert forall|i: int| 0 <= i < sel.len() implies (#[trigger] sel[i]).no_duplicates() by {
        lema_juego_sin_duplicados(sel[i]);
    }
    lema_conc_cuenta(sel);
    lema_cuenta_filter(mano, pred);
    lema_sin_duplicados_cuenta(mano);
    lema_cuenta_contiene(mano);
    lema_cuenta_concat(conc(sel), sobras);
    assert forall|c: Carta| cuenta(mano, c) == cuenta(conc(sel) + sobras, c) by {
        assert(cuenta(conc(sel) + sobras, c) == cuenta(conc(sel), c) + cuenta(sobras, c));
        if en_sel(c, sel) {
            let i = choose|i: int| 0 <= i < sel.len() && sel[i].contains(c);
            let k = choose|k: int| 0 <= k < sel[i].len() && sel[i][k] == c;
            assert(mano.contains(sel[i][k]));
            assert(cuenta(mano, c) == 1);
            assert(cuenta(sobras, c) == 0);
            assert(cuenta(conc(sel), c) == 1);
        } else {
            assert(cuenta(conc(sel), c) == 0);
            assert(cuenta(sobras, c) == cuenta(mano, c));
        }
    }
    lema_suma_mismo_conteo(mano, conc(sel) + sobras);
    lema_suma_concat(conc(sel), sobras);
    lema_peso_es_suma_conc(sel);
}

/// ¿Contiene el vector a la carta?
pub fn contiene_carta(v: &Vec<Carta>, c: Carta) -> (r: bool)
    ensures
        r == v@.contains(c),
{
    let mut i: usize = 0;
    while i < v.len()
        invariant
            0 <= i <= v@.len(),
            forall|k: int| 0 <= k < i ==> v@[k] != c,
        decreases v@.len() - i,
    {
        if v[i] == c {
            assert(v@[i as int] == c);
            return true;
        }
        i += 1;
    }
    false
}

/// ¿Comparten `a` y `b` alguna carta?
fn hay_solape(a: &Vec<Carta>, b: &Vec<Carta>) -> (r: bool)
    ensures
        r == !sin_solape(a@, b@),
{
    let mut i: usize = 0;
    while i < a.len()
        invariant
            0 <= i <= a@.len(),
            forall|k: int| 0 <= k < i ==> !b@.contains(#[trigger] a@[k]),
        decreases a@.len() - i,
    {
        if contiene_carta(b, a[i]) {
            return true;
        }
        i += 1;
    }
    false
}

/// Suma de los números de un vector de cartas.
fn suma_cartas(v: &Vec<Carta>) -> (r: i16)
    requires
        suma_nums(v@) <= 32000,
    ensures
        r as int == suma_nums(v@),
        r >= 0,
{
    let mut r: i16 = 0;
    let mut i: usize = 0;
    while i < v.len()
        invariant
            0 <= i <= v@.len(),
            suma_nums(v@) <= 32000,
            r as int == suma_nums(v@.subrange(0, i as int)),
            r >= 0,
        decreases v@.len() - i,
    {
        proof {
            let pre = v@.subrange(0, i as int);
            let pre2 = v@.subrange(0, i + 1);
            let resto = v@.subrange(i + 1, v@.len() as int);
            assert(pre2.drop_last() =~= pre);
            assert(pre2.last() == v@[i as int]);
            assert(v@ =~= pre2 + resto);
            lema_suma_concat(pre2, resto);
            lema_suma_no_negativa(resto);
            lema_suma_no_negativa(pre);
        }
        r = r + v[i].num as i16;
        i += 1;
    }
    assert(v@.subrange(0, v@.len() as int) =~= v@);
    r
}

} // verus!

verus! {

/// Busca entre los candidatos la selección de juegos que no comparten cartas
/// de peso total máximo; a igual peso se queda con la de menos juegos.
#[verifier::loop_isolation(false)]
#[verifier::rlimit(60)]
pub fn mejor_combinacion_juegos(juegos_posibles: &Vec<Vec<Carta>>) -> (r: (i16, Vec<Vec<Carta>>))
    requires
        forall|i: int|
            0 <= i < juegos_posibles@.len() ==> (#[trigger] juegos_posibles@[i])@.len() >= 1,
        forall|i: int|
            0 <= i < juegos_posibles@.len() ==> suma_nums((#[trigger] juegos_posibles@[i])@) >= 1,
        forall|sel: Seq<Seq<Carta>>|
            seleccion_de_candidatos(sel, vista2(juegos_posibles@)) ==> peso_sel(sel) <= 400,
    ensures
        0 <= r.0 <= 400,
        seleccion_de_candidatos(vista2(r.1@), vista2(juegos_posibles@)),
        peso_sel(vista2(r.1@)) == r.0 as int,
        forall|sel: Seq<Seq<Carta>>|
            seleccion_de_candidatos(sel, vista2(juegos_posibles@)) ==> peso_sel(sel) <= r.0 as int,
        forall|sel: Seq<Seq<Carta>>|
            seleccion_de_candidatos(sel, vista2(juegos_posibles@)) && peso_sel(sel) == r.0 as int
                ==> r.1@.len() <= sel.len(),
        r.0 == 0 ==> r.1@.len() == 0,
    decreases juegos_posibles@.len(),
{
    let ghost cs = vista2(juegos_posibles@);
    let mut mej_puntaje: i16 = 0;
    let mut mej_juegos: Vec<Vec<Carta>> = Vec::new();
    proof {
        assert(vista2(mej_juegos@) =~= Seq::<Seq<Carta>>::empty());
    }
    let mut i: usize = 0;
    while i < juegos_posibles.len()
        invariant
            0 <= i <= juegos_posibles@.len(),
            0 <= mej_puntaje <= 400,
            seleccion_de_candidatos(vista2(mej_juegos@), cs),
            peso_sel(vista2(mej_juegos@)) == mej_puntaje as int,
            mej_puntaje == 0 ==> mej_juegos@.len() == 0,
            forall|sel: Seq<Seq<Carta>>, j: int|
                #![trigger sel.contains(cs[j])]
                seleccion_de_candidatos(sel, cs) && 0 <= j < i && sel.contains(cs[j])
                    ==> peso_sel(sel) <= mej_puntaje as int,
            forall|sel: Seq<Seq<Carta>>, j: int|
                #![trigger sel.contains(cs[j])]
                seleccion_de_candidatos(sel, cs) && 0 <= j < i && sel.contains(cs[j])
                    && peso_sel(sel) == mej_puntaje as int ==> mej_juegos@.len() <= sel.len(),
        decreases juegos_posibles@.len() - i,
    {
        let juego: &Vec<Carta> = &juegos_posibles[i];
        proof {
            assert(cs[i as int] == juego@);
            assert(cs.contains(cs[i as int]));
            let s1 = Seq::<Seq<Carta>>::empty().push(cs[i as int]);
            assert(seleccion_de_candidatos(s1, cs)) by {
                assert(forall|m: int| 0 <= m < s1.len() ==> s1[m] == cs[i as int]);
            }
            assert(peso_sel(s1) == suma_nums(cs[i as int])) by {
                assert(s1.drop_last() =~= Seq::<Seq<Carta>>::empty());
                assert(s1.last() == cs[i as int]);
                assert(peso_sel(Seq::<Seq<Carta>>::empty()) == 0);
            }
            assert(suma_nums(juego@) <= 400);
        }
        let peso_j: i16 = suma_cartas(juego);

        // candidatos que no comparten cartas con el juego i
        let mut filtrados: Vec<Vec<Carta>> = Vec::new();
        let mut k: usize = 0;
        while k < juegos_posibles.len()
            invariant
                0 <= k <= juegos_posibles@.len(),
                forall|m: int|
                    0 <= m < filtrados@.len() ==> cs.contains(#[trigger] vista2(filtrados@)[m])
                        && sin_solape(vista2(filtrados@)[m], cs[i as int]),
                forall|m: int|
                    0 <= m < filtrados@.len() ==> (#[trigger] filtrados@[m])@.len() >= 1
                        && suma_nums(filtrados@[m]@) >= 1,
                forall|j: int|
                    0 <= j < k && sin_solape(#[trigger] cs[j], cs[i as int])
                        ==> vista2(filtrados@).contains(cs[j]),
                filtrados@.len() + (if k > i {
                    1int
                } else {
                    0int
                }) <= k as int,
            decreases juegos_posibles@.len() - k,
        {
            let solapa = hay_solape(&juegos_posibles[k], juego);
            if !solapa {
                proof {
                    assert(cs[k as int] == juegos_posibles@[k as int]@);
                    assert(k != i) by {
                        if k == i {
                            assert(cs[i as int].len() >= 1);
                            assert(cs[i as int].contains(cs[i as int][0]));
                        }
                    }
                }
                let copia = copiar_cartas(&juegos_posibles[k]);
                let ghost filt_antes = filtrados@;
                filtrados.push(copia);
                proof {
                    assert(vista2(filtrados@) =~= vista2(filt_antes).push(cs[k as int]));
                    assert(forall|m: int|
                        0 <= m < filt_antes.len() ==> vista2(filtrados@)[m] == vista2(
                            filt_antes,
                        )[m]);
                    assert(vista2(filtrados@)[filt_antes.len() as int] == cs[k as int]);
                    assert forall|j: int|
                        0 <= j < k + 1 && sin_solape(#[trigger] cs[j], cs[i as int])
                            implies vista2(filtrados@).contains(cs[j]) by {
                        if j < k {
                            assert(vista2(filt_antes).contains(cs[j]));
                            let m = choose|m: int|
                                0 <= m < vista2(filt_antes).len() && vista2(filt_antes)[m]
                                    == cs[j];
                            assert(vista2(filtrados@)[m] == cs[j]);
                        } else {
                            assert(vista2(filtrados@)[filt_antes.len() as int] == cs[j]);
                        }
                    }
                }
            }
            k += 1;
        }
        proof {
            // toda selección de los filtrados es una selección de los candidatos
            assert forall|sel: Seq<Seq<Carta>>|
                #[trigger] seleccion_de_candidatos(sel, vista2(filtrados@))
                    implies seleccion_de_candidatos(sel, cs) && peso_sel(sel) <= 400 by {
                assert forall|m: int| 0 <= m < sel.len() implies cs.contains(#[trigger] sel[m]) by {
                    assert(vista2(filtrados@).contains(sel[m]));
                    let q = choose|q: int|
                        0 <= q < vista2(filtrados@).len() && vista2(filtrados@)[q] == sel[m];
                }
                assert(seleccion_de_candidatos(sel, vista2(juegos_posibles@)));
                assert(peso_sel(sel) <= 400);
            }
            assert(filtrados@.len() < juegos_posibles@.len());
        }
        let rec = mejor_combinacion_juegos(&filtrados);
        let p_rec = rec.0;
        let js_rec = rec.1;
        proof {
            let selp = vista2(js_rec@).push(cs[i as int]);
            assert forall|m: int| 0 <= m < vista2(js_rec@).len()
                implies cs.contains(#[trigger] vista2(js_rec@)[m]) && sin_solape(
                vista2(js_rec@)[m],
                cs[i as int],
            ) by {
                assert(vista2(filtrados@).contains(vista2(js_rec@)[m]));
                let q = choose|q: int|
                    0 <= q < vista2(filtrados@).len() && vista2(filtrados@)[q] == vista2(
                        js_rec@,
                    )[m];
            }
            assert(seleccion_de_candidatos(selp, cs)) by {
                assert(forall|m: int|
                    0 <= m < selp.len() - 1 ==> #[trigger] selp[m] == vista2(js_rec@)[m]);
                assert(selp[selp.len() - 1] == cs[i as int]);
                assert forall|a: int, b: int| 0 <= a < b < selp.len() implies sin_solape(
                    #[trigger] selp[a],
                    #[trigger] selp[b],
                ) by {
                    if b < selp.len() - 1 {
                        assert(sin_solape(vista2(js_rec@)[a], vista2(js_rec@)[b]));
                    } else {
                        assert(sin_solape(vista2(js_rec@)[a], cs[i as int]));
                    }
                }
            }
            assert(peso_sel(selp) == p_rec as int + suma_nums(cs[i as int])) by {
                assert(selp.drop_last() =~= vista2(js_rec@));
                assert(selp.last() == cs[i as int]);
            }
            assert(peso_sel(selp) <= 400);
        }
        let cand: i16 = p_rec + peso_j;
        let ghost mej_antes = mej_puntaje;
        let ghost juegos_antes = mej_juegos@;
        let reemplaza = cand > mej_puntaje || (cand == mej_puntaje && js_rec.len()
            < mej_juegos.len());
        if reemplaza {
            let copia = copiar_cartas(juego);
            let mut nuevos = js_rec;
            let ghost nuevos_antes = nuevos@;
            nuevos.push(copia);
            proof {
                assert(vista2(nuevos@) =~= vista2(nuevos_antes).push(cs[i as int]));
            }
            mej_puntaje = cand;
            mej_juegos = nuevos;
        }
        proof {
            assert(mej_antes <= mej_puntaje);
            assert(cand <= mej_puntaje);
            // cota y desempate para las selecciones que usan el juego i
            assert forall|sel: Seq<Seq<Carta>>, j: int|
                #![trigger sel.contains(cs[j])]
                seleccion_de_candidatos(sel, cs) && 0 <= j < i + 1 && sel.contains(cs[j])
                    implies peso_sel(sel) <= mej_puntaje as int && (peso_sel(sel)
                    == mej_puntaje as int ==> mej_juegos@.len() <= sel.len()) by {
                if j < i {
                    assert(peso_sel(sel) <= mej_antes as int);
                    if peso_sel(sel) == mej_puntaje as int {
                        assert(mej_puntaje == mej_antes);
                        assert(juegos_antes.len() <= sel.len());
                        if reemplaza {
                            assert(mej_juegos@.len() == js_rec@.len() + 1);
                            assert(js_rec@.len() < juegos_antes.len());
                        }
                    }
                } else {
                    // j == i: quitarle el juego i deja una selección de los filtrados
                    let idx = choose|idx: int| 0 <= idx < sel.len() && sel[idx] == cs[j];
                    let resto = sel.remove(idx);
                    sel.remove_ensures(idx);
                    lema_disjunta_remove(sel, idx);
                    lema_peso_remove(sel, idx);
                    assert forall|m: int| 0 <= m < resto.len() implies vista2(
                        filtrados@,
                    ).contains(#[trigger] resto[m]) by {
                        let m2: int = if m < idx {
                            m
                        } else {
                            m + 1
                        };
                        assert(resto[m] == sel[m2]);
                        assert(cs.contains(sel[m2]));
                        let jx = choose|jx: int| 0 <= jx < cs.len() && cs[jx] == sel[m2];
                        assert(sin_solape(cs[jx], cs[i as int])) by {
                            if m2 < idx {
                                assert(sin_solape(sel[m2], sel[idx]));
                            } else {
                                assert(sin_solape(sel[idx], sel[m2]));
                                lema_sin_solape_sim(sel[idx], sel[m2]);
                            }
                        }
                    }
                    assert(seleccion_de_candidatos(resto, vista2(filtrados@)));
                    assert(peso_sel(resto) <= p_rec as int);
                    assert(peso_sel(sel) == peso_sel(resto) + suma_nums(cs[i as int]));
                    assert(peso_sel(sel) <= cand as int);
                    if peso_sel(sel) == mej_puntaje as int {
                        assert(cand == mej_puntaje);
                        assert(peso_sel(resto) == p_rec as int);
                        assert(js_rec@.len() <= resto.len());
                        assert(sel.len() == resto.len() + 1);
                        if reemplaza {
                            assert(mej_juegos@.len() == js_rec@.len() + 1);
                        } else {
                            assert(juegos_antes.len() <= js_rec@.len() + 1);
                            assert(mej_juegos@.len() == juegos_antes.len());
                        }
                    }
                }
            }
        }
        i += 1;
    }
    proof {
        assert forall|sel: Seq<Seq<Carta>>| seleccion_de_candidatos(sel, cs) implies peso_sel(sel)
            <= mej_puntaje as int && (peso_sel(sel) == mej_puntaje as int ==> mej_juegos@.len()
            <= sel.len()) by {
            if sel.len() == 0 {
                assert(peso_sel(sel) == 0);
            } else {
                assert(cs.contains(sel[0]));
                let j = choose|j: int| 0 <= j < cs.len() && cs[j] == sel[0];
                assert(sel.contains(cs[j])) by {
                    assert(sel[0] == cs[j]);
                }
            }
        }
    }
    (mej_puntaje, mej_juegos)
}

} // verus!

verus! {

/// Orden de mano: claves (número, palo) no decrecientes.
pub open spec fn ordenada_mano(s: Seq<Carta>) -> bool {
    forall|i: int, k: int|
        0 <= i < k < s.len() ==> clave_mano(#[trigger] s[i]) <= clave_mano(#[trigger] s[k])
}

/// Orden de búsqueda de escaleras: claves (palo, número) no decrecientes.
pub open spec fn ordenada_palo_num(s: Seq<Carta>) -> bool {
    forall|i: int, k: int|
        0 <= i < k < s.len() ==> clave_palo_num(#[trigger] s[i]) <= clave_palo_num(#[trigger] s[k])
}

/// Ventana de escalera en posiciones absolutas: mismo palo y números
/// consecutivos desde `a`.
pub open spec fn escalera_abs(s: Seq<Carta>, a: int, tam: int) -> bool {
    forall|i: int|
        0 <= i < tam ==> (#[trigger] s[a + i]).palo == s[a].palo && s[a + i].num == s[a].num + i
}

/// Ventana de igual número en posiciones absolutas.
pub open spec fn mismo_num_abs(s: Seq<Carta>, a: int, tam: int) -> bool {
    forall|i: int| 0 <= i < tam ==> (#[trigger] s[a + i]).num == s[a].num
}

/// El grupo de 3 que deja afuera a la segunda carta de una ventana de 4.
pub open spec fn tripleta1(s: Seq<Carta>, a: int) -> Seq<Carta> {
    seq![s[a], s[a + 2], s[a + 3]]
}

/// El grupo de 3 que deja afuera a la tercera carta de una ventana de 4.
pub open spec fn tripleta2(s: Seq<Carta>, a: int) -> Seq<Carta> {
    seq![s[a], s[a + 1], s[a + 3]]
}

/// Con los mismos conteos, contener una carta se traslada.
pub proof fn lema_mismo_conteo_contiene(a: Seq<Carta>, b: Seq<Carta>)
    requires
        mismo_conteo(a, b),
    ensures
        forall|c: Carta| a.contains(c) <==> b.contains(c),
{
    lema_cuenta_contiene(a);
    lema_cuenta_contiene(b);
    assert forall|c: Carta| a.contains(c) <==> b.contains(c) by {
        assert(cuenta(a, c) == cuenta(b, c));
    }
}

/// Todo lo contenido en un prefijo está contenido en la extensión.
pub proof fn lema_contiene_prefijo(a: Seq<Seq<Carta>>, b: Seq<Seq<Carta>>)
    requires
        a.is_prefix_of(b),
    ensures
        forall|x: Seq<Carta>| a.contains(x) ==> b.contains(x),
{
    assert forall|x: Seq<Carta>| a.contains(x) implies b.contains(x) by {
        let q = choose|q: int| 0 <= q < a.len() && a[q] == x;
        assert(b[q] == x);
    }
}

/// Ordena por la clave de mano (número, luego palo), por inserción.
#[verifier::loop_isolation(false)]
pub fn ordenar_clave_mano(v: &Vec<Carta>) -> (r: Vec<Carta>)
    ensures
        mismo_conteo(r@, v@),
        r@.len() == v@.len(),
        ordenada_mano(r@),
{
    let mut r: Vec<Carta> = Vec::new();
    let mut i: usize = 0;
    while i < v.len()
        invariant
            0 <= i <= v@.len(),
            r@.len() == i,
            mismo_conteo(r@, v@.subrange(0, i as int)),
            ordenada_mano(r@),
        decreases v@.len() - i,
    {
        let x = v[i];
        let mut pos: usize = 0;
        while pos < r.len() && r[pos].clave_mano_exec() <= x.clave_mano_exec()
            invariant
                0 <= pos <= r@.len(),
                forall|k: int| 0 <= k < pos ==> clave_mano(#[trigger] r@[k]) <= clave_mano(x),
            decreases r@.len() - pos,
        {
            pos += 1;
        }
        let ghost r_antes = r@;
        r.insert(pos, x);
        proof {
            r_antes.insert_ensures(pos as int, x);
            lema_cuenta_insert(r_antes, pos as int, x);
            assert(v@.subrange(0, i + 1).drop_last() =~= v@.subrange(0, i as int));
            assert(v@.subrange(0, i + 1).last() == v@[i as int]);
            assert forall|c: Carta| cuenta(r@, c) == cuenta(v@.subrange(0, i + 1), c) by {
                assert(cuenta(r_antes, c) == cuenta(v@.subrange(0, i as int), c));
            }
            assert forall|a: int, b: int| 0 <= a < b < r@.len() implies clave_mano(
                #[trigger] r@[a],
            ) <= clave_mano(#[trigger] r@[b]) by {
                if b < pos {
                    assert(r@[a] == r_antes[a] && r@[b] == r_antes[b]);
                } else if a < pos && b == pos {
                    assert(r@[a] == r_antes[a]);
                } else if a < pos && b > pos {
                    assert(r@[a] == r_antes[a] && r@[b] == r_antes[b - 1]);
                } else if a == pos {
                    assert(r@[b] == r_antes[b - 1]);
                    assert(pos < r_antes.len());
                    assert(clave_mano(x) < clave_mano(r_antes[pos as int]));
                    assert(clave_mano(r_antes[pos as int]) <= clave_mano(r_antes[b - 1]));
                } else {
                    assert(r@[a] == r_antes[a - 1] && r@[b] == r_antes[b - 1]);
                }
            }
        }
        i += 1;
    }
    proof {
        assert(v@.subrange(0, v@.len() as int) =~= v@);
    }
    r
}

/// Ordena por la clave (palo, número), por inserción.
#[verifier::loop_isolation(false)]
pub fn ordenar_clave_palo_num(v: &Vec<Carta>) -> (r: Vec<Carta>)
    ensures
        mismo_conteo(r@, v@),
        r@.len() == v@.len(),
        ordenada_palo_num(r@),
{
    let mut r: Vec<Carta> = Vec::new();
    let mut i: usize = 0;
    while i < v.len()
        invariant
            0 <= i <= v@.len(),
            r@.len() == i,
            mismo_conteo(r@, v@.subrange(0, i as int)),
            ordenada_palo_num(r@),
        decreases v@.len() - i,
    {
        let x = v[i];
        let mut pos: usize = 0;
        while pos < r.len() && r[pos].clave_palo_num_exec() <= x.clave_palo_num_exec()
            invariant
                0 <= pos <= r@.len(),
                forall|k: int| 0 <= k < pos ==> clave_palo_num(#[trigger] r@[k]) <= clave_palo_num(x),
            decreases r@.len() - pos,
        {
            pos += 1;
        }
        let ghost r_antes = r@;
        r.insert(pos, x);
        proof {
            r_antes.insert_ensures(pos as int, x);
            lema_cuenta_insert(r_antes, pos as int, x);
            assert(v@.subrange(0, i + 1).drop_last() =~= v@.subrange(0, i as int));
            assert(v@.subrange(0, i + 1).last() == v@[i as int]);
            assert forall|c: Carta| cuenta(r@, c) == cuenta(v@.subrange(0, i + 1), c) by {
                assert(cuenta(r_antes, c) == cuenta(v@.subrange(0, i as int), c));
            }
            assert forall|a: int, b: int| 0 <= a < b < r@.len() implies clave_palo_num(
                #[trigger] r@[a],
            ) <= clave_palo_num(#[trigger] r@[b]) by {
                if b < pos {
                    assert(r@[a] == r_antes[a] && r@[b] == r_antes[b]);
                } else if a < pos && b == pos {
                    assert(r@[a] == r_antes[a]);
                } else if a < pos && b > pos {
                    assert(r@[a] == r_antes[a] && r@[b] == r_antes[b - 1]);
                } else if a == pos {
                    assert(r@[b] == r_antes[b - 1]);
                    assert(pos < r_antes.len());
                    assert(clave_palo_num(x) < clave_palo_num(r_antes[pos as int]));
                    assert(clave_palo_num(r_antes[pos as int]) <= clave_palo_num(r_antes[b - 1]));
                } else {
                    assert(r@[a] == r_antes[a - 1] && r@[b] == r_antes[b - 1]);
                }
            }
        }
        i += 1;
    }
    proof {
        assert(v@.subrange(0, v@.len() as int) =~= v@);
    }
    r
}

/// Copia el tramo `[desde, hasta)` de un vector de cartas.
#[verifier::loop_isolation(false)]
fn subvec(v: &Vec<Carta>, desde: usize, hasta: usize) -> (r: Vec<Carta>)
    requires
        desde <= hasta <= v@.len(),
    ensures
        r@ == v@.subrange(desde as int, hasta as int),
{
    let mut r: Vec<Carta> = Vec::new();
    let mut i: usize = desde;
    while i < hasta
        invariant
            desde <= i <= hasta,
            r@ == v@.subrange(desde as int, i as int),
        decreases hasta - i,
    {
        r.push(v[i]);
        proof {
            assert(v@.subrange(desde as int, i as int).push(v@[i as int]) =~= v@.subrange(
                desde as int,
                i + 1,
            ));
        }
        i += 1;
    }
    r
}

/// ¿Forma la ventana `[a, a+tam)` una escalera?
#[verifier::loop_isolation(false)]
fn es_ventana_escalera(v: &Vec<Carta>, a: usize, tam: usize) -> (r: bool)
    requires
        tam >= 1,
        a + tam <= v@.len(),
    ensures
        r == escalera_abs(v@, a as int, tam as int),
{
    let n = v.len();
    let mut q: usize = 1;
    while q < tam
        invariant
            1 <= q <= tam,
            forall|i: int|
                0 <= i < q ==> (#[trigger] v@[a + i]).palo == v@[a as int].palo && v@[a + i].num
                    == v@[a as int].num + i,
        decreases tam - q,
    {
        let previa = v[a + q - 1];
        let actual = v[a + q];
        proof {
            assert(previa == v@[a + (q - 1)]);
            assert(previa.palo == v@[a as int].palo);
            assert(previa.num == v@[a as int].num + (q - 1));
        }
        if !(actual.palo == previa.palo && previa.num < 255 && actual.num == previa.num + 1) {
            proof {
                let enesima = v@[a + q as int];
                assert(enesima == actual);
                assert(!(enesima.palo == v@[a as int].palo && enesima.num == v@[a as int].num + q));
            }
            return false;
        }
        q += 1;
    }
    true
}

/// ¿Tienen todas las cartas de la ventana `[a, a+tam)` el mismo número?
#[verifier::loop_isolation(false)]
fn es_ventana_mismo_num(v: &Vec<Carta>, a: usize, tam: usize) -> (r: bool)
    requires
        tam >= 1,
        a + tam <= v@.len(),
    ensures
        r == mismo_num_abs(v@, a as int, tam as int),
{
    let n = v.len();
    let mut q: usize = 1;
    while q < tam
        invariant
            1 <= q <= tam,
            forall|i: int| 0 <= i < q ==> (#[trigger] v@[a + i]).num == v@[a as int].num,
        decreases tam - q,
    {
        if v[a + q].num != v[a].num {
            return false;
        }
        q += 1;
    }
    true
}

} // verus!

verus! {

/// Empujar un juego a la lista conserva lo que ya estaba y agrega el nuevo.
pub proof fn lema_contiene_push(s: Seq<Seq<Carta>>, e: Seq<Carta>)
    ensures
        forall|x: Seq<Carta>| #[trigger] s.contains(x) ==> s.push(e).contains(x),
        s.push(e).contains(e),
{
    assert forall|x: Seq<Carta>| s.contains(x) implies s.push(e).contains(x) by {
        let q = choose|q: int| 0 <= q < s.len() && s[q] == x;
        assert(s.push(e)[q] == x);
    }
    assert(s.push(e)[s.len() as int] == e);
}

/// Toda ventana de escalera de largo `t < tam` que empiece antes de `hasta`
/// (o en cualquier parte, si `t < tam`) está entre los juegos `js`; las de
/// largo exactamente `tam` lo están si empiezan antes de `hasta`.
pub open spec fn escaleras_completas(
    sp: Seq<Carta>,
    js: Seq<Seq<Carta>>,
    tam: int,
    hasta: int,
) -> bool {
    forall|t: int, b: int|
        3 <= t <= 7 && 0 <= b && b + t <= sp.len() && (t < tam || (t == tam && b < hasta))
            && escalera_abs(sp, b, t) ==> js.contains(#[trigger] sp.subrange(b, b + t))
}

/// Toda ventana de igual número de largo 4 que empiece antes de `hasta` está
/// entre los juegos `js`, junto con sus dos tripletas derivadas.
pub open spec fn grupos4_completos(st: Seq<Carta>, js: Seq<Seq<Carta>>, hasta: int) -> bool {
    forall|b: int|
        0 <= b < hasta && b + 4 <= st.len() && mismo_num_abs(st, b, 4) ==> js.contains(
            #[trigger] st.subrange(b, b + 4),
        ) && js.contains(tripleta1(st, b)) && js.contains(tripleta2(st, b))
}

/// Toda ventana de igual número de largo 3 que empiece antes de `hasta` está
/// entre los juegos `js`.
pub open spec fn grupos3_completos(st: Seq<Carta>, js: Seq<Seq<Carta>>, hasta: int) -> bool {
    forall|b: int|
        0 <= b < hasta && b + 3 <= st.len() && mismo_num_abs(st, b, 3) ==> js.contains(
            #[trigger] st.subrange(b, b + 3),
        )
}

/// Las completitudes se conservan al agregar juegos a la lista.
pub proof fn lema_completas_push(
    sp: Seq<Carta>,
    st: Seq<Carta>,
    js: Seq<Seq<Carta>>,
    e: Seq<Carta>,
    tam: int,
    hasta_e: int,
    hasta_g4: int,
    hasta_g3: int,
)
    ensures
        escaleras_completas(sp, js, tam, hasta_e) ==> escaleras_completas(
            sp,
            js.push(e),
            tam,
            hasta_e,
        ),
        grupos4_completos(st, js, hasta_g4) ==> grupos4_completos(st, js.push(e), hasta_g4),
        grupos3_completos(st, js, hasta_g3) ==> grupos3_completos(st, js.push(e), hasta_g3),
{
    lema_contiene_push(js, e);
}

/// Junta en la lista todas las ventanas de escalera (largos 3 a 7) de una
/// secuencia ordenada por (palo, número).
#[verifier::loop_isolation(false)]
fn pasa_escaleras(sp: &Vec<Carta>, juegos: &mut Vec<Vec<Carta>>)
    ensures
        vista2(old(juegos)@).is_prefix_of(vista2(final(juegos)@)),
        forall|q: int|
            old(juegos)@.len() <= q < final(juegos)@.len() ==> es_escalera(
                #[trigger] vista2(final(juegos)@)[q],
            ) && juego_de(vista2(final(juegos)@)[q], sp@),
        escaleras_completas(sp@, vista2(final(juegos)@), 8, 0),
{
    let n = sp.len();
    let mut tam: usize = 3;
    proof {
        assert(escaleras_completas(sp@, vista2(juegos@), 3, 0));
    }
    while tam < 8
        invariant
            3 <= tam <= 8,
            vista2(old(juegos)@).is_prefix_of(vista2(juegos@)),
            forall|q: int|
                old(juegos)@.len() <= q < juegos@.len() ==> es_escalera(
                    #[trigger] vista2(juegos@)[q],
                ) && juego_de(vista2(juegos@)[q], sp@),
            escaleras_completas(sp@, vista2(juegos@), tam as int, 0),
        decreases 8 - tam,
    {
        if n >= tam {
            let mut a: usize = 0;
            while a <= n - tam
                invariant
                    tam <= n,
                    0 <= a <= n - tam + 1,
                    vista2(old(juegos)@).is_prefix_of(vista2(juegos@)),
                    forall|q: int|
                        old(juegos)@.len() <= q < juegos@.len() ==> es_escalera(
                            #[trigger] vista2(juegos@)[q],
                        ) && juego_de(vista2(juegos@)[q], sp@),
                    escaleras_completas(sp@, vista2(juegos@), tam as int, a as int),
                decreases n - tam - a + 1,
            {
                let ghost js0 = vista2(juegos@);
                if es_ventana_escalera(sp, a, tam) {
                    let w = subvec(sp, a, a + tam);
                    let ghost antes = juegos@;
                    juegos.push(w);
                    proof {
                        assert(vista2(juegos@) =~= vista2(antes).push(w@));
                        lema_contiene_push(vista2(antes), w@);
                        lema_completas_push(sp@, sp@, vista2(antes), w@, tam as int, a as int, 0, 0);
                        assert(vista2(old(juegos)@).is_prefix_of(vista2(juegos@))) by {
                            assert(vista2(old(juegos)@) =~= vista2(juegos@).subrange(
                                0,
                                old(juegos)@.len() as int,
                            ));
                        }
                        assert(es_escalera(w@)) by {
                            assert forall|i: int| 0 <= i < w@.len() implies (#[trigger] w@[i]).palo
                                == w@[0].palo && w@[i].num == w@[0].num + i by {
                                assert(w@[i] == sp@[a + i]);
                                assert(w@[0] == sp@[a as int]);
                            }
                        }
                        assert(juego_de(w@, sp@)) by {
                            assert forall|i: int| 0 <= i < w@.len() implies sp@.contains(
                                #[trigger] w@[i],
                            ) by {
                                assert(w@[i] == sp@[a + i]);
                            }
                        }
                        assert forall|q: int|
                            old(juegos)@.len() <= q < juegos@.len() implies es_escalera(
                            #[trigger] vista2(juegos@)[q],
                        ) && juego_de(vista2(juegos@)[q], sp@) by {
                            if q < antes.len() {
                                assert(vista2(juegos@)[q] == vista2(antes)[q]);
                            } else {
                                assert(vista2(juegos@)[q] == w@);
                            }
                        }
                        assert(vista2(juegos@).contains(sp@.subrange(a as int, a + tam)));
                        assert(escaleras_completas(sp@, vista2(juegos@), tam as int, a + 1)) by {
                            assert forall|t: int, b: int|
                                3 <= t <= 7 && 0 <= b && b + t <= sp@.len() && (t < tam || (t
                                    == tam && b < a + 1)) && escalera_abs(sp@, b, t) implies vista2(
                                juegos@,
                            ).contains(#[trigger] sp@.subrange(b, b + t)) by {
                                if t < tam || b < a {
                                    assert(js0.contains(sp@.subrange(b, b + t)));
                                } else {
                                    assert(sp@.subrange(b, b + t) == sp@.subrange(
                                        a as int,
                                        a + tam,
                                    ));
                                }
                            }
                        }
                    }
                } else {
                    proof {
                        assert(escaleras_completas(sp@, vista2(juegos@), tam as int, a + 1)) by {
                            assert forall|t: int, b: int|
                                3 <= t <= 7 && 0 <= b && b + t <= sp@.len() && (t < tam || (t
                                    == tam && b < a + 1)) && escalera_abs(sp@, b, t) implies vista2(
                                juegos@,
                            ).contains(#[trigger] sp@.subrange(b, b + t)) by {
                                if t < tam || b < a {
                                    assert(js0.contains(sp@.subrange(b, b + t)));
                                } else {
                                    assert(b == a && t == tam);
                                    assert(!escalera_abs(sp@, a as int, tam as int));
                                }
                            }
                        }
                    }
                }
                a += 1;
            }
            proof {
                assert(escaleras_completas(sp@, vista2(juegos@), tam + 1, 0)) by {
                    assert forall|t: int, b: int|
                        3 <= t <= 7 && 0 <= b && b + t <= sp@.len() && (t < tam + 1 || (t == tam
                            + 1 && b < 0)) && escalera_abs(sp@, b, t) implies vista2(
                        juegos@,
                    ).contains(#[trigger] sp@.subrange(b, b + t)) by {
                        if t == tam {
                            assert(b < a);
                        }
                    }
                }
            }
        } else {
            proof {
                assert(escaleras_completas(sp@, vista2(juegos@), tam + 1, 0)) by {
                    assert forall|t: int, b: int|
                        3 <= t <= 7 && 0 <= b && b + t <= sp@.len() && (t < tam + 1 || (t == tam
                            + 1 && b < 0)) && escalera_abs(sp@, b, t) implies vista2(
                        juegos@,
                    ).contains(#[trigger] sp@.subrange(b, b + t)) by {
                        if t == tam {
                            assert(b + t > sp@.len());
                        }
                    }
                }
            }
        }
        tam += 1;
    }
    proof {
        assert(escaleras_completas(sp@, vista2(juegos@), 8, 0));
    }
}

/// Junta en la lista todas las ventanas de igual número de tamaño 4 (con sus
/// dos tripletas derivadas) y de tamaño 3, sobre una secuencia ordenada por
/// la clave de mano y sin cartas repetidas.
#[verifier::loop_isolation(false)]
fn pasa_grupos(st: &Vec<Carta>, juegos: &mut Vec<Vec<Carta>>)
    requires
        st@.no_duplicates(),
    ensures
        vista2(old(juegos)@).is_prefix_of(vista2(final(juegos)@)),
        forall|q: int|
            old(juegos)@.len() <= q < final(juegos)@.len() ==> es_grupo(
                #[trigger] vista2(final(juegos)@)[q],
            ) && juego_de(vista2(final(juegos)@)[q], st@),
        grupos4_completos(st@, vista2(final(juegos)@), st@.len() as int),
        grupos3_completos(st@, vista2(final(juegos)@), st@.len() as int),
{
    let n = st.len();
    if n >= 4 {
        let mut a: usize = 0;
        while a <= n - 4
            invariant
                4 <= n,
                0 <= a <= n - 4 + 1,
                vista2(old(juegos)@).is_prefix_of(vista2(juegos@)),
                forall|q: int|
                    old(juegos)@.len() <= q < juegos@.len() ==> es_grupo(
                        #[trigger] vista2(juegos@)[q],
                    ) && juego_de(vista2(juegos@)[q], st@),
                grupos4_completos(st@, vista2(juegos@), a as int),
            decreases n - 4 - a + 1,
        {
            let ghost js0 = vista2(juegos@);
            if es_ventana_mismo_num(st, a, 4) {
                let w = subvec(st, a, a + 4);
                let mut t1: Vec<Carta> = Vec::new();
                t1.push(st[a]);
                t1.push(st[a + 2]);
                t1.push(st[a + 3]);
                let mut t2: Vec<Carta> = Vec::new();
                t2.push(st[a]);
                t2.push(st[a + 1]);
                t2.push(st[a + 3]);
                proof {
                    assert(t1@ =~= tripleta1(st@, a as int));
                    assert(t2@ =~= tripleta2(st@, a as int));
                }
                let ghost antes0 = juegos@;
                juegos.push(w);
                let ghost antes1 = juegos@;
                juegos.push(t1);
                let ghost antes2 = juegos@;
                juegos.push(t2);
                proof {
                    assert(vista2(antes1) =~= vista2(antes0).push(w@));
                    assert(vista2(antes2) =~= vista2(antes1).push(tripleta1(st@, a as int)));
                    assert(vista2(juegos@) =~= vista2(antes2).push(tripleta2(st@, a as int)));
                    lema_contiene_push(vista2(antes0), w@);
                    lema_contiene_push(vista2(antes1), tripleta1(st@, a as int));
                    lema_contiene_push(vista2(antes2), tripleta2(st@, a as int));
                    lema_completas_push(st@, st@, vista2(antes0), w@, 0, 0, a as int, 0);
                    lema_completas_push(
                        st@,
                        st@,
                        vista2(antes1),
                        tripleta1(st@, a as int),
                        0,
                        0,
                        a as int,
                        0,
                    );
                    lema_completas_push(
                        st@,
                        st@,
                        vista2(antes2),
                        tripleta2(st@, a as int),
                        0,
                        0,
                        a as int,
                        0,
                    );
                    assert(vista2(old(juegos)@).is_prefix_of(vista2(juegos@))) by {
                        assert(vista2(old(juegos)@) =~= vista2(juegos@).subrange(
                            0,
                            old(juegos)@.len() as int,
                        ));
                    }
                    assert(es_grupo(w@) && juego_de(w@, st@)) by {
                        assert forall|i: int| 0 <= i < w@.len() implies (#[trigger] w@[i]).num
                            == w@[0].num && st@.contains(w@[i]) by {
                            assert(w@[i] == st@[a + i]);
                            assert(w@[0] == st@[a as int]);
                        }
                        assert(w@.no_duplicates()) by {
                            assert forall|x: int, y: int| 0 <= x < y < w@.len() implies w@[x]
                                != w@[y] by {
                                assert(w@[x] == st@[a + x] && w@[y] == st@[a + y]);
                            }
                        }
                    }
                    assert(es_grupo(t1@) && juego_de(t1@, st@)) by {
                        assert(t1@[0] == st@[a as int] && t1@[1] == st@[a + 2] && t1@[2] == st@[a
                            + 3]);
                        assert(mismo_num_abs(st@, a as int, 4));
                        assert(st@[a + 2].num == st@[a as int].num && st@[a + 3].num == st@[
                            a as int].num);
                    }
                    assert(es_grupo(t2@) && juego_de(t2@, st@)) by {
                        assert(t2@[0] == st@[a as int] && t2@[1] == st@[a + 1] && t2@[2] == st@[a
                            + 3]);
                        assert(st@[a + 1].num == st@[a as int].num && st@[a + 3].num == st@[
                            a as int].num);
                    }
                    assert forall|q: int|
                        old(juegos)@.len() <= q < juegos@.len() implies es_grupo(
                        #[trigger] vista2(juegos@)[q],
                    ) && juego_de(vista2(juegos@)[q], st@) by {
                        if q < antes0.len() {
                            assert(vista2(juegos@)[q] == vista2(antes0)[q]);
                        } else if q == antes0.len() {
                            assert(vista2(juegos@)[q] == w@);
                        } else if q == antes0.len() + 1 {
                            assert(vista2(juegos@)[q] == tripleta1(st@, a as int));
                        } else {
                            assert(vista2(juegos@)[q] == tripleta2(st@, a as int));
                        }
                    }
                    assert(vista2(juegos@).contains(st@.subrange(a as int, a + 4)));
                    assert(vista2(juegos@).contains(tripleta1(st@, a as int)));
                    assert(vista2(juegos@).contains(tripleta2(st@, a as int)));
                    assert(grupos4_completos(st@, vista2(juegos@), a + 1)) by {
                        assert forall|b: int|
                            0 <= b < a + 1 && b + 4 <= st@.len() && mismo_num_abs(st@, b, 4)
                                implies vista2(juegos@).contains(#[trigger] st@.subrange(b, b + 4))
                                && vista2(juegos@).contains(tripleta1(st@, b)) && vista2(
                                juegos@,
                            ).contains(tripleta2(st@, b)) by {
                            if b < a {
                                assert(js0.contains(st@.subrange(b, b + 4)));
                                assert(js0.contains(tripleta1(st@, b)));
                                assert(js0.contains(tripleta2(st@, b)));
                            } else {
                                assert(b == a);
                            }
                        }
                    }
                }
            } else {
                proof {
                    assert(grupos4_completos(st@, vista2(juegos@), a + 1)) by {
                        assert forall|b: int|
                            0 <= b < a + 1 && b + 4 <= st@.len() && mismo_num_abs(st@, b, 4)
                                implies vista2(juegos@).contains(#[trigger] st@.subrange(b, b + 4))
                                && vista2(juegos@).contains(tripleta1(st@, b)) && vista2(
                                juegos@,
                            ).contains(tripleta2(st@, b)) by {
                            if b < a {
                                assert(js0.contains(st@.subrange(b, b + 4)));
                                assert(js0.contains(tripleta1(st@, b)));
                                assert(js0.contains(tripleta2(st@, b)));
                            } else {
                                assert(b == a);
                                assert(!mismo_num_abs(st@, a as int, 4));
                            }
                        }
                    }
                }
            }
            a += 1;
        }
        proof {
            assert(grupos4_completos(st@, vista2(juegos@), st@.len() as int)) by {
                assert forall|b: int|
                    0 <= b < st@.len() && b + 4 <= st@.len() && mismo_num_abs(st@, b, 4) implies
                    vista2(juegos@).contains(#[trigger] st@.subrange(b, b + 4)) && vista2(
                    juegos@,
                ).contains(tripleta1(st@, b)) && vista2(juegos@).contains(tripleta2(st@, b)) by {
                    assert(st@.len() == n as int);
                    assert(b <= n - 4);
                    assert(b < a);
                    assert(grupos4_completos(st@, vista2(juegos@), a as int));
                    assert(vista2(juegos@).contains(st@.subrange(b, b + 4)));
                    assert(vista2(juegos@).contains(tripleta1(st@, b)));
                    assert(vista2(juegos@).contains(tripleta2(st@, b)));
                }
            }
        }
    } else {
        proof {
            assert(grupos4_completos(st@, vista2(juegos@), st@.len() as int)) by {
                assert forall|b: int|
                    0 <= b < st@.len() && b + 4 <= st@.len() && mismo_num_abs(st@, b, 4) implies
                    vista2(juegos@).contains(#[trigger] st@.subrange(b, b + 4)) && vista2(
                    juegos@,
                ).contains(tripleta1(st@, b)) && vista2(juegos@).contains(tripleta2(st@, b)) by {
                    assert(b + 4 > st@.len());
                }
            }
        }
    }
    let ghost medio = vista2(juegos@);
    proof {
        assert(grupos4_completos(st@, medio, st@.len() as int));
    }
    if n >= 3 {
        let mut a: usize = 0;
        while a <= n - 3
            invariant
                3 <= n,
                0 <= a <= n - 3 + 1,
                medio.is_prefix_of(vista2(juegos@)),
                grupos4_completos(st@, medio, st@.len() as int),
                vista2(old(juegos)@).is_prefix_of(vista2(juegos@)),
                forall|q: int|
                    old(juegos)@.len() <= q < juegos@.len() ==> es_grupo(
                        #[trigger] vista2(juegos@)[q],
                    ) && juego_de(vista2(juegos@)[q], st@),
                grupos3_completos(st@, vista2(juegos@), a as int),
            decreases n - 3 - a + 1,
        {
            let ghost js0 = vista2(juegos@);
            if es_ventana_mismo_num(st, a, 3) {
                let w = subvec(st, a, a + 3);
                let ghost antes = juegos@;
                juegos.push(w);
                proof {
                    assert(vista2(juegos@) =~= vista2(antes).push(w@));
                    lema_contiene_push(vista2(antes), w@);
                    assert(medio.is_prefix_of(vista2(juegos@))) by {
                        assert(medio =~= vista2(juegos@).subrange(0, medio.len() as int));
                    }
                    assert(vista2(old(juegos)@).is_prefix_of(vista2(juegos@))) by {
                        assert(vista2(old(juegos)@) =~= vista2(juegos@).subrange(
                            0,
                            old(juegos)@.len() as int,
                        ));
                    }
                    assert(es_grupo(w@) && juego_de(w@, st@)) by {
                        assert forall|i: int| 0 <= i < w@.len() implies (#[trigger] w@[i]).num
                            == w@[0].num && st@.contains(w@[i]) by {
                            assert(w@[i] == st@[a + i]);
                            assert(w@[0] == st@[a as int]);
                        }
                        assert(w@.no_duplicates()) by {
                            assert forall|x: int, y: int| 0 <= x < y < w@.len() implies w@[x]
                                != w@[y] by {
                                assert(w@[x] == st@[a + x] && w@[y] == st@[a + y]);
                            }
                        }
                    }
                    assert forall|q: int|
                        old(juegos)@.len() <= q < juegos@.len() implies es_grupo(
                        #[trigger] vista2(juegos@)[q],
                    ) && juego_de(vista2(juegos@)[q], st@) by {
                        if q < antes.len() {
                            assert(vista2(juegos@)[q] == vista2(antes)[q]);
                        } else {
                            assert(vista2(juegos@)[q] == w@);
                        }
                    }
                    assert(vista2(juegos@).contains(st@.subrange(a as int, a + 3)));
                    assert(grupos3_completos(st@, vista2(juegos@), a + 1)) by {
                        assert forall|b: int|
                            0 <= b < a + 1 && b + 3 <= st@.len() && mismo_num_abs(st@, b, 3)
                                implies vista2(juegos@).contains(
                                #[trigger] st@.subrange(b, b + 3),
                            ) by {
                            if b < a {
                                assert(js0.contains(st@.subrange(b, b + 3)));
                            } else {
                                assert(b == a);
                            }
                        }
                    }
                }
            } else {
                proof {
                    assert(grupos3_completos(st@, vista2(juegos@), a + 1)) by {
                        assert forall|b: int|
                            0 <= b < a + 1 && b + 3 <= st@.len() && mismo_num_abs(st@, b, 3)
                                implies vista2(juegos@).contains(
                                #[trigger] st@.subrange(b, b + 3),
                            ) by {
                            if b < a {
                                assert(js0.contains(st@.subrange(b, b + 3)));
                            } else {
                                assert(b == a);
                                assert(!mismo_num_abs(st@, a as int, 3));
                            }
                        }
                    }
                }
            }
            a += 1;
        }
        proof {
            assert(grupos3_completos(st@, vista2(juegos@), st@.len() as int)) by {
                assert forall|b: int|
                    0 <= b < st@.len() && b + 3 <= st@.len() && mismo_num_abs(st@, b, 3) implies
                    vista2(juegos@).contains(#[trigger] st@.subrange(b, b + 3)) by {
                    assert(b < a);
                }
            }
        }
    } else {
        proof {
            assert(grupos3_completos(st@, vista2(juegos@), st@.len() as int)) by {
                assert forall|b: int|
                    0 <= b < st@.len() && b + 3 <= st@.len() && mismo_num_abs(st@, b, 3) implies
                    vista2(juegos@).contains(#[trigger] st@.subrange(b, b + 3)) by {
                    assert(b + 3 > st@.len());
                }
            }
        }
    }
    proof {
        lema_contiene_prefijo(medio, vista2(juegos@));
        assert(grupos4_completos(st@, vista2(juegos@), st@.len() as int)) by {
            assert forall|b: int|
                0 <= b < st@.len() && b + 4 <= st@.len() && mismo_num_abs(st@, b, 4) implies
                vista2(juegos@).contains(#[trigger] st@.subrange(b, b + 4)) && vista2(
                juegos@,
            ).contains(tripleta1(st@, b)) && vista2(juegos@).contains(tripleta2(st@, b)) by {
                assert(medio.contains(st@.subrange(b, b + 4)));
                assert(medio.contains(tripleta1(st@, b)));
                assert(medio.contains(tripleta2(st@, b)));
            }
        }
    }
}

} // verus!

verus! {

/// El índice de palo siempre está entre 0 y 3.
pub proof fn lema_indice_palo_cota(p: Palo)
    ensures
        0 <= indice_palo(p) < 4,
{
}

/// En una secuencia ordenada por clave de mano y sin duplicados las claves
/// crecen estrictamente.
pub proof fn lema_estricta_mano(s: Seq<Carta>)
    requires
        ordenada_mano(s),
        s.no_duplicates(),
    ensures
        forall|i: int, k: int|
            0 <= i < k < s.len() ==> clave_mano(#[trigger] s[i]) < clave_mano(#[trigger] s[k]),
{
    assert forall|i: int, k: int| 0 <= i < k < s.len() implies clave_mano(s[i]) < clave_mano(
        s[k],
    ) by {
        if clave_mano(s[i]) == clave_mano(s[k]) {
            lema_clave_mano_inyectiva(s[i], s[k]);
        }
    }
}

/// Lo mismo para la clave (palo, número).
pub proof fn lema_estricta_palo_num(s: Seq<Carta>)
    requires
        ordenada_palo_num(s),
        s.no_duplicates(),
    ensures
        forall|i: int, k: int|
            0 <= i < k < s.len() ==> clave_palo_num(#[trigger] s[i]) < clave_palo_num(
                #[trigger] s[k],
            ),
{
    assert forall|i: int, k: int| 0 <= i < k < s.len() implies clave_palo_num(s[i])
        < clave_palo_num(s[k]) by {
        if clave_palo_num(s[i]) == clave_palo_num(s[k]) {
            lema_clave_palo_num_inyectiva(s[i], s[k]);
        }
    }
}

/// En una secuencia de claves (palo, número) estrictamente crecientes, las
/// cartas de una escalera contenida ocupan posiciones consecutivas.
proof fn lema_escalera_pos(s: Seq<Carta>, m: Seq<Carta>, a: int, k: int)
    requires
        forall|i: int, j: int|
            0 <= i < j < s.len() ==> clave_palo_num(#[trigger] s[i]) < clave_palo_num(
                #[trigger] s[j],
            ),
        es_escalera(m),
        juego_de(m, s),
        0 <= a < s.len(),
        s[a] == m[0],
        0 <= k < m.len(),
    ensures
        a + k < s.len(),
        s[a + k] == m[k],
    decreases k,
{
    if k > 0 {
        lema_escalera_pos(s, m, a, k - 1);
        assert(s.contains(m[k]));
        let q = choose|q: int| 0 <= q < s.len() && s[q] == m[k];
        assert(clave_palo_num(m[k]) == clave_palo_num(m[k - 1]) + 1) by {
            assert(m[k].palo == m[0].palo && m[k].num == m[0].num + k);
            assert(m[k - 1].palo == m[0].palo && m[k - 1].num == m[0].num + (k - 1));
        }
        assert(s[a + (k - 1)] == m[k - 1]);
        assert(q > a + k - 1) by {
            if q < a + k - 1 {
                assert(clave_palo_num(s[q]) < clave_palo_num(s[a + (k - 1)]));
            }
        }
        assert(q == a + k) by {
            if q > a + k {
                assert(clave_palo_num(s[a + (k - 1)]) < clave_palo_num(s[a + k]));
                assert(clave_palo_num(s[a + k]) < clave_palo_num(s[q]));
            }
        }
    }
}

/// Toda escalera contenida en una secuencia estrictamente ordenada por
/// (palo, número) es exactamente un tramo contiguo de ella.
pub proof fn lema_escalera_candidata(s: Seq<Carta>, m: Seq<Carta>)
    requires
        forall|i: int, j: int|
            0 <= i < j < s.len() ==> clave_palo_num(#[trigger] s[i]) < clave_palo_num(
                #[trigger] s[j],
            ),
        es_escalera(m),
        juego_de(m, s),
    ensures
        exists|a: int|
            0 <= a && a + m.len() <= s.len() && #[trigger] s.subrange(a, a + m.len() as int) == m,
{
    assert(m.len() >= 3);
    assert(s.contains(m[0]));
    let a = choose|a: int| 0 <= a < s.len() && s[a] == m[0];
    assert forall|k: int| 0 <= k < m.len() implies a + k < s.len() && s[a + k] == m[k] by {
        lema_escalera_pos(s, m, a, k);
    }
    assert(a + m.len() <= s.len()) by {
        assert(s[a + (m.len() - 1)] == m[m.len() - 1]);
    }
    assert(s.subrange(a, a + m.len() as int) =~= m);
}

/// Entre dos posiciones con el mismo número, en una secuencia estrictamente
/// ordenada por la clave de mano, todas las cartas llevan ese número, y el
/// tramo abarca a lo sumo cuatro posiciones (una por palo).
proof fn lema_region_mismo_num(st: Seq<Carta>, lo: int, hi: int)
    requires
        forall|i: int, j: int|
            0 <= i < j < st.len() ==> clave_mano(#[trigger] st[i]) < clave_mano(#[trigger] st[j]),
        0 <= lo <= hi < st.len(),
        st[lo].num == st[hi].num,
    ensures
        forall|r: int| lo <= r <= hi ==> (#[trigger] st[r]).num == st[lo].num,
        hi - lo <= 3,
{
    let n0 = st[lo].num;
    assert forall|r: int| lo <= r <= hi implies (#[trigger] st[r]).num == n0 by {
        lema_indice_palo_cota(st[r].palo);
        lema_indice_palo_cota(st[lo].palo);
        lema_indice_palo_cota(st[hi].palo);
        if r > lo {
            assert(clave_mano(st[lo]) < clave_mano(st[r]));
        }
        if r < hi {
            assert(clave_mano(st[r]) < clave_mano(st[hi]));
        }
    }
    assert(hi - lo <= 3) by {
        if hi - lo >= 4 {
            assert(st[lo].num == n0 && st[lo + 1].num == n0 && st[lo + 2].num == n0 && st[lo
                + 3].num == n0 && st[lo + 4].num == n0);
            assert(clave_mano(st[lo]) < clave_mano(st[lo + 1]));
            assert(clave_mano(st[lo + 1]) < clave_mano(st[lo + 2]));
            assert(clave_mano(st[lo + 2]) < clave_mano(st[lo + 3]));
            assert(clave_mano(st[lo + 3]) < clave_mano(st[lo + 4]));
            lema_indice_palo_cota(st[lo].palo);
            lema_indice_palo_cota(st[lo + 4].palo);
        }
    }
}

/// Todo grupo contenido en una secuencia estrictamente ordenada por la clave
/// de mano tiene, entre los juegos que recogen las pasadas de ventanas, uno
/// con exactamente las mismas cartas.
#[verifier::rlimit(100)]
pub proof fn lema_grupo_candidato(st: Seq<Carta>, m: Seq<Carta>, cs: Seq<Seq<Carta>>)
    requires
        forall|i: int, j: int|
            0 <= i < j < st.len() ==> clave_mano(#[trigger] st[i]) < clave_mano(#[trigger] st[j]),
        st.no_duplicates(),
        es_grupo(m),
        juego_de(m, st),
        grupos4_completos(st, cs, st.len() as int),
        grupos3_completos(st, cs, st.len() as int),
    ensures
        exists|x: Seq<Carta>| #[trigger] cs.contains(x) && mismo_conteo(m, x),
{
    let n0 = m[0].num;
    assert(forall|i: int| 0 <= i < m.len() ==> (#[trigger] m[i]).num == n0);
    assert(st.contains(m[0]) && st.contains(m[1]) && st.contains(m[2]));
    let q0 = choose|q: int| 0 <= q < st.len() && st[q] == m[0];
    let q1 = choose|q: int| 0 <= q < st.len() && st[q] == m[1];
    let q2 = choose|q: int| 0 <= q < st.len() && st[q] == m[2];
    assert(m[0] != m[1] && m[0] != m[2] && m[1] != m[2]);
    assert(q0 != q1 && q0 != q2 && q1 != q2);
    assert(st[q0].num == n0 && st[q1].num == n0 && st[q2].num == n0);
    assert(0 <= indice_palo(st[q0].palo) < 4) by {
        lema_indice_palo_cota(st[q0].palo);
    }
    if m.len() == 3 {
        let lo: int = if q0 <= q1 && q0 <= q2 {
            q0
        } else if q1 <= q0 && q1 <= q2 {
            q1
        } else {
            q2
        };
        let hi: int = if q0 >= q1 && q0 >= q2 {
            q0
        } else if q1 >= q0 && q1 >= q2 {
            q1
        } else {
            q2
        };
        assert(lo <= q0 <= hi && lo <= q1 <= hi && lo <= q2 <= hi);
        assert(st[lo].num == n0 && st[hi].num == n0);
        assert(hi - lo >= 2);
        lema_region_mismo_num(st, lo, hi);
        if hi - lo == 2 {
            let w = st.subrange(lo, lo + 3);
            assert(mismo_num_abs(st, lo, 3)) by {
                assert(st[lo + 0].num == n0 && st[lo + 1].num == n0 && st[lo + 2].num == n0);
            }
            assert(cs.contains(w));
            assert(w.no_duplicates()) by {
                assert(forall|x: int, y: int| 0 <= x < y < 3 ==> #[trigger] w[x] != #[trigger] w[y]);
            }
            assert(w.contains(m[0])) by {
                assert(w[q0 - lo] == m[0]);
            }
            assert(w.contains(m[1])) by {
                assert(w[q1 - lo] == m[1]);
            }
            assert(w.contains(m[2])) by {
                assert(w[q2 - lo] == m[2]);
            }
            assert forall|c: Carta| m.contains(c) implies w.contains(c) by {
                let i = choose|i: int| 0 <= i < m.len() && m[i] == c;
                assert(i == 0 || i == 1 || i == 2);
            }
            lema_permutacion(m, w);
            assert(cs.contains(w) && mismo_conteo(m, w));
        } else {
            // hi - lo == 3: la región tiene cuatro cartas del mismo número
            assert(mismo_num_abs(st, lo, 4)) by {
                assert(st[lo + 0].num == n0 && st[lo + 1].num == n0 && st[lo + 2].num == n0 && st[
                    lo + 3].num == n0);
            }
            assert(lo + 4 <= st.len());
            let t1 = tripleta1(st, lo);
            let t2 = tripleta2(st, lo);
            assert(grupos4_completos(st, cs, st.len() as int));
            assert(0 <= lo < st.len() && lo + 4 <= st.len() && mismo_num_abs(st, lo, 4));
            assert(cs.contains(st.subrange(lo, lo + 4)));
            assert(cs.contains(t1));
            assert(cs.contains(t2));
            let mid = q0 + q1 + q2 - lo - hi;
            assert(mid == q0 || mid == q1 || mid == q2) by {
                if lo == q0 && hi == q1 {
                    assert(mid == q2);
                } else if lo == q0 && hi == q2 {
                    assert(mid == q1);
                } else if lo == q1 && hi == q0 {
                    assert(mid == q2);
                } else if lo == q1 && hi == q2 {
                    assert(mid == q0);
                } else if lo == q2 && hi == q0 {
                    assert(mid == q1);
                } else {
                    assert(lo == q2 && hi == q1);
                    assert(mid == q0);
                }
            }
            assert(mid != lo && mid != hi);
            assert(lo <= mid <= hi);
            assert(mid == lo + 1 || mid == lo + 2);
            assert((q0 == lo || q0 == hi || q0 == mid) && (q1 == lo || q1 == hi || q1 == mid) && (
            q2 == lo || q2 == hi || q2 == mid));
            if mid == lo + 1 {
                // las posiciones usadas son lo, lo+1 y lo+3: la tripleta que
                // omite a la tercera carta
                assert(t2[0] == st[lo] && t2[1] == st[lo + 1] && t2[2] == st[lo + 3]);
                assert(t2.no_duplicates()) by {
                    assert(st[lo] != st[lo + 1] && st[lo] != st[lo + 3] && st[lo + 1] != st[lo
                        + 3]);
                }
                assert forall|c: Carta| m.contains(c) implies t2.contains(c) by {
                    let i = choose|i: int| 0 <= i < m.len() && m[i] == c;
                    assert(i == 0 || i == 1 || i == 2);
                    assert(c == st[q0] || c == st[q1] || c == st[q2]);
                }
                lema_permutacion(m, t2);
                assert(cs.contains(t2) && mismo_conteo(m, t2));
            } else {
                assert(t1[0] == st[lo] && t1[1] == st[lo + 2] && t1[2] == st[lo + 3]);
                assert(t1.no_duplicates()) by {
                    assert(st[lo] != st[lo + 2] && st[lo] != st[lo + 3] && st[lo + 2] != st[lo
                        + 3]);
                }
                assert forall|c: Carta| m.contains(c) implies t1.contains(c) by {
                    let i = choose|i: int| 0 <= i < m.len() && m[i] == c;
                    assert(i == 0 || i == 1 || i == 2);
                    assert(c == st[q0] || c == st[q1] || c == st[q2]);
                }
                lema_permutacion(m, t1);
                assert(cs.contains(t1) && mismo_conteo(m, t1));
            }
        }
    } else {
        // m.len() == 4
        assert(st.contains(m[3]));
        let q3 = choose|q: int| 0 <= q < st.len() && st[q] == m[3];
        assert(m[3] != m[0] && m[3] != m[1] && m[3] != m[2]);
        assert(q3 != q0 && q3 != q1 && q3 != q2);
        assert(st[q3].num == n0);
        let lo01: int = if q0 <= q1 {
            q0
        } else {
            q1
        };
        let lo23: int = if q2 <= q3 {
            q2
        } else {
            q3
        };
        let lo: int = if lo01 <= lo23 {
            lo01
        } else {
            lo23
        };
        let hi01: int = if q0 >= q1 {
            q0
        } else {
            q1
        };
        let hi23: int = if q2 >= q3 {
            q2
        } else {
            q3
        };
        let hi: int = if hi01 >= hi23 {
            hi01
        } else {
            hi23
        };
        assert(lo <= q0 <= hi && lo <= q1 <= hi && lo <= q2 <= hi && lo <= q3 <= hi);
        assert(st[lo].num == n0 && st[hi].num == n0);
        assert(hi - lo >= 3);
        lema_region_mismo_num(st, lo, hi);
        assert(mismo_num_abs(st, lo, 4)) by {
            assert(st[lo + 0].num == n0 && st[lo + 1].num == n0 && st[lo + 2].num == n0 && st[lo
                + 3].num == n0);
        }
        assert(lo + 4 <= st.len());
        let w = st.subrange(lo, lo + 4);
        assert(cs.contains(w));
        assert(w.no_duplicates()) by {
            assert(forall|x: int, y: int| 0 <= x < y < 4 ==> #[trigger] w[x] != #[trigger] w[y]);
        }
        assert(w.contains(m[0])) by {
            assert(w[q0 - lo] == m[0]);
        }
        assert(w.contains(m[1])) by {
            assert(w[q1 - lo] == m[1]);
        }
        assert(w.contains(m[2])) by {
            assert(w[q2 - lo] == m[2]);
        }
        assert(w.contains(m[3])) by {
            assert(w[q3 - lo] == m[3]);
        }
        assert forall|c: Carta| m.contains(c) implies w.contains(c) by {
            let i = choose|i: int| 0 <= i < m.len() && m[i] == c;
            assert(i == 0 || i == 1 || i == 2 || i == 3);
        }
        lema_permutacion(m, w);
        assert(cs.contains(w) && mismo_conteo(m, w));
    }
}

} // verus!

verus! {

/// Todos los candidatos de la lista son juegos válidos de la mano.
pub open spec fn candidatos_validos(cs: Seq<Seq<Carta>>, mano: Seq<Carta>) -> bool {
    forall|q: int|
        0 <= q < cs.len() ==> es_juego_valido(#[trigger] cs[q]) && juego_de(cs[q], mano)
}

/// Con cartas válidas la suma queda entre 0 y doce veces el largo.
pub proof fn lema_suma_cota_validas(s: Seq<Carta>)
    requires
        cartas_validas(s),
    ensures
        0 <= suma_nums(s) <= 12 * s.len(),
    decreases s.len(),
{
    if s.len() > 0 {
        assert(cartas_validas(s.drop_last())) by {
            assert forall|i: int| 0 <= i < s.drop_last().len() implies carta_valida(
                #[trigger] s.drop_last()[i],
            ) by {
                assert(s.drop_last()[i] == s[i]);
            }
        }
        lema_suma_cota_validas(s.drop_last());
        assert(carta_valida(s[s.len() - 1]));
    }
}

/// Una secuencia no vacía de cartas válidas suma al menos uno.
pub proof fn lema_suma_minima(s: Seq<Carta>)
    requires
        s.len() >= 1,
        cartas_validas(s),
    ensures
        suma_nums(s) >= 1,
{
    lema_suma_no_negativa(s.drop_last());
    assert(carta_valida(s[s.len() - 1]));
}

/// Dos selecciones cuyos juegos pesan igual uno a uno pesan igual en total.
pub proof fn lema_peso_pareado(s1: Seq<Seq<Carta>>, s2: Seq<Seq<Carta>>)
    requires
        s1.len() == s2.len(),
        forall|i: int| 0 <= i < s1.len() ==> suma_nums(#[trigger] s1[i]) == suma_nums(s2[i]),
    ensures
        peso_sel(s1) == peso_sel(s2),
    decreases s1.len(),
{
    if s1.len() > 0 {
        assert forall|i: int| 0 <= i < s1.drop_last().len() implies suma_nums(
            #[trigger] s1.drop_last()[i],
        ) == suma_nums(s2.drop_last()[i]) by {
            assert(s1.drop_last()[i] == s1[i] && s2.drop_last()[i] == s2[i]);
        }
        lema_peso_pareado(s1.drop_last(), s2.drop_last());
        assert(suma_nums(s1.last()) == suma_nums(s2.last())) by {
            assert(s1.last() == s1[s1.len() - 1] && s2.last() == s2[s2.len() - 1]);
        }
    }
}

/// Si las pasadas de ventanas recogieron sus candidatos, todo juego válido de
/// la mano tiene entre ellos uno con las mismas cartas.
pub proof fn lema_candidatos_completos(
    mano: Seq<Carta>,
    sp: Seq<Carta>,
    st: Seq<Carta>,
    cs: Seq<Seq<Carta>>,
)
    requires
        mano.no_duplicates(),
        mismo_conteo(sp, mano),
        ordenada_palo_num(sp),
        mismo_conteo(st, mano),
        ordenada_mano(st),
        escaleras_completas(sp, cs, 8, 0),
        grupos4_completos(st, cs, st.len() as int),
        grupos3_completos(st, cs, st.len() as int),
    ensures
        forall|m: Seq<Carta>|
            #[trigger] es_juego_valido(m) && juego_de(m, mano) ==> exists|x: Seq<Carta>|
                cs.contains(x) && mismo_conteo(m, x),
{
    lema_mismo_conteo_sin_duplicados(mano, sp);
    lema_mismo_conteo_sin_duplicados(mano, st);
    lema_estricta_palo_num(sp);
    lema_estricta_mano(st);
    lema_mismo_conteo_contiene(sp, mano);
    lema_mismo_conteo_contiene(st, mano);
    assert forall|m: Seq<Carta>| #[trigger] es_juego_valido(m) && juego_de(m, mano)
        implies exists|x: Seq<Carta>| cs.contains(x) && mismo_conteo(m, x) by {
        if es_escalera(m) {
            assert(juego_de(m, sp)) by {
                assert forall|i: int| 0 <= i < m.len() implies sp.contains(#[trigger] m[i]) by {
                    assert(mano.contains(m[i]));
                }
            }
            lema_escalera_candidata(sp, m);
            let a = choose|a: int|
                0 <= a && a + m.len() <= sp.len() && #[trigger] sp.subrange(a, a + m.len() as int)
                    == m;
            assert(escalera_abs(sp, a, m.len() as int)) by {
                assert forall|i: int| 0 <= i < m.len() implies (#[trigger] sp[a + i]).palo == sp[
                    a as int].palo && sp[a + i].num == sp[a as int].num + i by {
                    assert(sp.subrange(a, a + m.len() as int)[i] == sp[a + i]);
                    assert(sp.subrange(a, a + m.len() as int)[0] == sp[a]);
                    assert(m[i].palo == m[0].palo && m[i].num == m[0].num + i);
                }
            }
            assert(cs.contains(sp.subrange(a, a + m.len() as int)));
            assert(cs.contains(m) && mismo_conteo(m, m));
        } else {
            assert(juego_de(m, st)) by {
                assert forall|i: int| 0 <= i < m.len() implies st.contains(#[trigger] m[i]) by {
                    assert(mano.contains(m[i]));
                }
            }
            lema_grupo_candidato(st, m, cs);
        }
    }
}

/// Toda selección de la mano se corresponde con una selección de los
/// candidatos, del mismo peso y la misma cantidad de juegos.
pub proof fn lema_seleccion_a_candidatos(
    sel: Seq<Seq<Carta>>,
    mano: Seq<Carta>,
    cs: Seq<Seq<Carta>>,
)
    requires
        seleccion_de_mano(sel, mano),
        forall|m: Seq<Carta>|
            #[trigger] es_juego_valido(m) && juego_de(m, mano) ==> exists|x: Seq<Carta>|
                cs.contains(x) && mismo_conteo(m, x),
    ensures
        exists|sel2: Seq<Seq<Carta>>|
            #[trigger] seleccion_de_candidatos(sel2, cs) && peso_sel(sel2) == peso_sel(sel)
                && sel2.len() == sel.len(),
{
    let sel2 = Seq::new(
        sel.len(),
        |i: int| choose|x: Seq<Carta>| cs.contains(x) && mismo_conteo(sel[i], x),
    );
    assert forall|i: int| 0 <= i < sel.len() implies cs.contains(#[trigger] sel2[i])
        && mismo_conteo(sel[i], sel2[i]) by {
        assert(es_juego_valido(sel[i]) && juego_de(sel[i], mano));
        assert(exists|x: Seq<Carta>| cs.contains(x) && mismo_conteo(sel[i], x));
    }
    assert forall|a: int, b: int| 0 <= a < b < sel2.len() implies sin_solape(
        #[trigger] sel2[a],
        #[trigger] sel2[b],
    ) by {
        lema_mismo_conteo_contiene(sel[a], sel2[a]);
        lema_mismo_conteo_contiene(sel[b], sel2[b]);
        assert(sin_solape(sel[a], sel[b]));
        assert forall|idx: int| 0 <= idx < sel2[a].len() implies !sel2[b].contains(
            #[trigger] sel2[a][idx],
        ) by {
            let c = sel2[a][idx];
            assert(sel2[a].contains(c));
            assert(sel[a].contains(c));
            let k = choose|k: int| 0 <= k < sel[a].len() && sel[a][k] == c;
            assert(!sel[b].contains(sel[a][k]));
            if sel2[b].contains(c) {
                assert(sel[b].contains(c));
            }
        }
    }
    assert forall|i: int| 0 <= i < sel.len() implies suma_nums(#[trigger] sel[i]) == suma_nums(
        sel2[i],
    ) by {
        lema_suma_mismo_conteo(sel[i], sel2[i]);
    }
    lema_peso_pareado(sel, sel2);
    assert(seleccion_de_candidatos(sel2, cs) && peso_sel(sel2) == peso_sel(sel) && sel2.len()
        == sel.len());
}

/// Calcula la mejor descomposición de una mano en juegos: devuelve los puntos
/// de las cartas sobrantes (los que no quedaron dentro de ningún juego
/// elegido) y los juegos elegidos. La selección devuelta es válida, no
/// comparte cartas entre juegos, deja el mínimo de puntos sobrantes entre
/// todas las selecciones válidas, y a igual puntaje usa la menor cantidad de
/// juegos posible.
#[verifier::loop_isolation(false)]
#[verifier::rlimit(100)]
pub fn formar_juegos(cartas: Vec<Carta>) -> (r: (i16, Vec<Vec<Carta>>))
    requires
        cartas@.no_duplicates(),
        cartas@.len() <= 8,
        cartas_validas(cartas@),
    ensures
        seleccion_de_mano(vista2(r.1@), cartas@),
        r.0 as int == suma_nums(cartas@) - peso_sel(vista2(r.1@)),
        r.0 as int == suma_nums(cartas@.filter(|c: Carta| !en_sel(c, vista2(r.1@)))),
        0 <= r.0 <= 96,
        forall|sel: Seq<Seq<Carta>>|
            seleccion_de_mano(sel, cartas@) ==> peso_sel(sel) <= peso_sel(vista2(r.1@)),
        forall|sel: Seq<Seq<Carta>>|
            seleccion_de_mano(sel, cartas@) && peso_sel(sel) == peso_sel(vista2(r.1@))
                ==> r.1@.len() <= sel.len(),
{
    let ghost mano = cartas@;
    let sp = ordenar_clave_palo_num(&cartas);
    let st = ordenar_clave_mano(&cartas);
    proof {
        lema_mismo_conteo_sin_duplicados(mano, sp@);
        lema_mismo_conteo_sin_duplicados(mano, st@);
        lema_mismo_conteo_contiene(sp@, mano);
        lema_mismo_conteo_contiene(st@, mano);
    }
    let mut juegos: Vec<Vec<Carta>> = Vec::new();
    pasa_escaleras(&sp, &mut juegos);
    let ghost j1 = vista2(juegos@);
    pasa_grupos(&st, &mut juegos);
    let ghost cs = vista2(juegos@);
    proof {
        lema_contiene_prefijo(j1, cs);
        assert(escaleras_completas(sp@, cs, 8, 0)) by {
            assert forall|t: int, b: int|
                3 <= t <= 7 && 0 <= b && b + t <= sp@.len() && (t < 8 || (t == 8 && b < 0))
                    && escalera_abs(sp@, b, t) implies cs.contains(
                #[trigger] sp@.subrange(b, b + t),
            ) by {
                assert(j1.contains(sp@.subrange(b, b + t)));
            }
        }
        assert(candidatos_validos(cs, mano)) by {
            assert forall|q: int| 0 <= q < cs.len() implies es_juego_valido(#[trigger] cs[q])
                && juego_de(cs[q], mano) by {
                if q < j1.len() {
                    assert(cs[q] == j1[q]);
                    assert(es_escalera(j1[q]) && juego_de(j1[q], sp@));
                    assert forall|i: int| 0 <= i < cs[q].len() implies mano.contains(
                        #[trigger] cs[q][i],
                    ) by {
                        assert(sp@.contains(cs[q][i]));
                    }
                } else {
                    assert(es_grupo(cs[q]) && juego_de(cs[q], st@));
                    assert forall|i: int| 0 <= i < cs[q].len() implies mano.contains(
                        #[trigger] cs[q][i],
                    ) by {
                        assert(st@.contains(cs[q][i]));
                    }
                }
            }
        }
        lema_cuenta_contiene(mano);
        assert forall|q: int| 0 <= q < cs.len() implies (#[trigger] cs[q]).len() >= 1
            && suma_nums(cs[q]) >= 1 by {
            lema_juego_sin_duplicados(cs[q]);
            assert(cartas_validas(cs[q])) by {
                assert forall|i: int| 0 <= i < cs[q].len() implies carta_valida(
                    #[trigger] cs[q][i],
                ) by {
                    assert(mano.contains(cs[q][i]));
                    let k = choose|k: int| 0 <= k < mano.len() && mano[k] == cs[q][i];
                    assert(carta_valida(mano[k]));
                }
            }
            lema_suma_minima(cs[q]);
        }
        lema_suma_cota_validas(mano);
        assert forall|sel: Seq<Seq<Carta>>| #[trigger] seleccion_de_candidatos(sel, cs)
            implies peso_sel(sel) <= 400 by {
            assert forall|i: int| 0 <= i < sel.len() implies es_juego_valido(#[trigger] sel[i])
                && juego_de(sel[i], mano) by {
                assert(cs.contains(sel[i]));
                let q = choose|q: int| 0 <= q < cs.len() && cs[q] == sel[i];
            }
            assert(seleccion_de_mano(sel, mano));
            lema_seleccion_sub_conteo(sel, mano);
            assert(12 * mano.len() <= 96);
        }
        assert forall|i: int|
            0 <= i < juegos@.len() implies (#[trigger] juegos@[i])@.len() >= 1 && suma_nums(
            juegos@[i]@,
        ) >= 1 by {
            assert(cs[i] == juegos@[i]@);
        }
    }
    let rec = mejor_combinacion_juegos(&juegos);
    let puntos = rec.0;
    let mejores = rec.1;
    let total = suma_cartas(&cartas);
    proof {
        let vm = vista2(mejores@);
        assert forall|i: int| 0 <= i < vm.len() implies es_juego_valido(#[trigger] vm[i])
            && juego_de(vm[i], mano) by {
            assert(cs.contains(vm[i]));
            let q = choose|q: int| 0 <= q < cs.len() && cs[q] == vm[i];
        }
        assert(seleccion_de_mano(vm, mano));
        lema_seleccion_sub_conteo(vm, mano);
        lema_candidatos_completos(mano, sp@, st@, cs);
        assert forall|sel: Seq<Seq<Carta>>| #[trigger] seleccion_de_mano(sel, mano)
            implies peso_sel(sel) <= puntos as int && (peso_sel(sel) == puntos as int
            ==> mejores@.len() <= sel.len()) by {
            lema_seleccion_a_candidatos(sel, mano, cs);
            let sel2 = choose|sel2: Seq<Seq<Carta>>|
                #[trigger] seleccion_de_candidatos(sel2, cs) && peso_sel(sel2) == peso_sel(sel)
                    && sel2.len() == sel.len();
            assert(peso_sel(sel2) <= puntos as int);
        }
        lema_particion(vm, mano);
    }
    (total - puntos, mejores)
}

} // verus!

verus! {

/// La mejor descomposición está determinada por la mano en su puntaje y en
/// su cantidad de juegos: dos selecciones de peso máximo dejan los mismos
/// puntos sobrantes, y si ambas desempatan por menor cantidad, usan la misma
/// cantidad de juegos. (Las cartas concretas pueden diferir entre dos
/// selecciones igual de buenas: el peso máximo con desempate no las fija.)
pub proof fn lema_puntaje_determinista(
    mano: Seq<Carta>,
    sel1: Seq<Seq<Carta>>,
    sel2: Seq<Seq<Carta>>,
)
    requires
        seleccion_de_mano(sel1, mano),
        seleccion_de_mano(sel2, mano),
        forall|s: Seq<Seq<Carta>>| seleccion_de_mano(s, mano) ==> peso_sel(s) <= peso_sel(sel1),
        forall|s: Seq<Seq<Carta>>| seleccion_de_mano(s, mano) ==> peso_sel(s) <= peso_sel(sel2),
        forall|s: Seq<Seq<Carta>>|
            seleccion_de_mano(s, mano) && peso_sel(s) == peso_sel(sel1) ==> sel1.len() <= s.len(),
        forall|s: Seq<Seq<Carta>>|
            seleccion_de_mano(s, mano) && peso_sel(s) == peso_sel(sel2) ==> sel2.len() <= s.len(),
    ensures
        peso_sel(sel1) == peso_sel(sel2),
        suma_nums(mano) - peso_sel(sel1) == suma_nums(mano) - peso_sel(sel2),
        sel1.len() == sel2.len(),
{
    assert(peso_sel(sel1) <= peso_sel(sel2));
    assert(peso_sel(sel2) <= peso_sel(sel1));
    assert(sel1.len() <= sel2.len());
    assert(sel2.len() <= sel1.len());
}

} // verus!
