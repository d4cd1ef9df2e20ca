//! Conteo de cartas en secuencias: la noción de "mismas cartas" (igualdad de
//! multiconjuntos, expresada por conteos) y la suma de números, con los lemas
//! que las relacionan.

use vstd::prelude::*;
use crate::cartas::Carta;

verus! {

/// Cuántas veces aparece la carta `c` en la secuencia `s`.
pub open spec fn cuenta(s: Seq<Carta>, c: Carta) -> nat
    decreases s.len(),
{
    if s.len() == 0 {
        0
    } else {
        cuenta(s.drop_last(), c) + if s.last() == c {
            1nat
        } else {
            0nat
        }
    }
}

/// Suma de los números de todas las cartas de `s`.
pub open spec fn suma_nums(s: Seq<Carta>) -> int
    decreases s.len(),
{
    if s.len() == 0 {
        0
    } else {
        suma_nums(s.drop_last()) + s.last().num
    }
}

/// `a` tiene, de cada carta, a lo sumo tantas copias como `b`.
pub open spec fn sub_conteo(a: Seq<Carta>, b: Seq<Carta>) -> bool {
    forall|c: Carta| cuenta(a, c) <= cuenta(b, c)
}

/// `a` y `b` tienen exactamente las mismas cartas (mismo multiconjunto).
pub open spec fn mismo_conteo(a: Seq<Carta>, b: Seq<Carta>) -> bool {
    forall|c: Carta| cuenta(a, c) == cuenta(b, c)
}

/// El conteo de una concatenación es la suma de los conteos.
pub proof fn lema_cuenta_concat(a: Seq<Carta>, b: Seq<Carta>)
    ensures
        forall|c: Carta| #[trigger] cuenta(a + b, c) == cuenta(a, c) + cuenta(b, c),
    decreases b.len(),
{
    if b.len() == 0 {
        assert(a + b =~= a);
    } else {
        lema_cuenta_concat(a, b.drop_last());
        assert forall|c: Carta| #[trigger] cuenta(a + b, c) == cuenta(a, c) + cuenta(b, c) by {
            assert((a + b).drop_last() =~= a + b.drop_last());
            assert(cuenta(a + b.drop_last(), c) == cuenta(a, c) + cuenta(b.drop_last(), c));
            assert(cuenta(b, c) == cuenta(b.drop_last(), c) + if b.last() == c {
                1nat
            } else {
                0nat
            });
        }
    }
}

/// La suma de una concatenación es la suma de las sumas.
pub proof fn lema_suma_concat(a: Seq<Carta>, b: Seq<Carta>)
    ensures
        suma_nums(a + b) == suma_nums(a) + suma_nums(b),
    decreases b.len(),
{
    if b.len() == 0 {
        assert(a + b =~= a);
    } else {
        lema_suma_concat(a, b.drop_last());
        assert((a + b).drop_last() =~= a + b.drop_last());
        assert(suma_nums(a + b) == suma_nums(a + b.drop_last()) + b.last().num);
    }
}

/// Una carta está en `s` si y sólo si su conteo es positivo.
pub proof fn lema_cuenta_contiene(s: Seq<Carta>)
    ensures
        forall|c: Carta| #[trigger] s.contains(c) <==> cuenta(s, c) > 0,
    decreases s.len(),
{
    if s.len() > 0 {
        lema_cuenta_contiene(s.drop_last());
        assert forall|c: Carta| #[trigger] s.contains(c) implies cuenta(s, c) > 0 by {
            let i = choose|i: int| 0 <= i < s.len() && s[i] == c;
            if i < s.len() - 1 {
                assert(s.drop_last()[i] == c);
                assert(s.drop_last().contains(c));
                assert(cuenta(s.drop_last(), c) > 0);
            }
        }
        assert forall|c: Carta| cuenta(s, c) > 0 implies #[trigger] s.contains(c) by {
            if s.last() == c {
                assert(s[s.len() - 1] == c);
            } else {
                assert(cuenta(s.drop_last(), c) > 0);
                assert(s.drop_last().contains(c));
                let i = choose|i: int| 0 <= i < s.drop_last().len() && s.drop_last()[i] == c;
                assert(s[i] == c);
            }
        }
    }
}

/// Conteo de la secuencia de un solo elemento.
pub proof fn lema_cuenta_uno(s: Seq<Carta>)
    requires
        s.len() == 1,
    ensures
        forall|c: Carta| cuenta(s, c) == if s[0] == c {
            1nat
        } else {
            0nat
        },
{
    assert forall|c: Carta| cuenta(s, c) == (if s[0] == c {
        1nat
    } else {
        0nat
    }) by {
        assert(cuenta(s.drop_last(), c) == 0);
        assert(s.last() == s[0]);
    }
}

/// Quitar el elemento `i` baja en uno el conteo de esa carta.
pub proof fn lema_cuenta_remove(s: Seq<Carta>, i: int)
    requires
        0 <= i < s.len(),
    ensures
        forall|c: Carta| cuenta(s, c) == cuenta(#[trigger] s.remove(i), c) + if s[i] == c {
            1nat
        } else {
            0nat
        },
{
    let ini = s.subrange(0, i);
    let medio = s.subrange(i, i + 1);
    let fin = s.subrange(i + 1, s.len() as int);
    assert(s =~= (ini + medio) + fin);
    assert(s.remove(i) =~= ini + fin);
    lema_cuenta_concat(ini + medio, fin);
    lema_cuenta_concat(ini, medio);
    lema_cuenta_concat(ini, fin);
    lema_cuenta_uno(medio);
    assert forall|c: Carta| cuenta(s, c) == cuenta(s.remove(i), c) + (if s[i] == c {
        1nat
    } else {
        0nat
    }) by {
        assert(cuenta(s, c) == cuenta((ini + medio) + fin, c));
        assert(cuenta((ini + medio) + fin, c) == cuenta(ini + medio, c) + cuenta(fin, c));
        assert(cuenta(ini + medio, c) == cuenta(ini, c) + cuenta(medio, c));
        assert(cuenta(s.remove(i), c) == cuenta(ini + fin, c));
        assert(cuenta(ini + fin, c) == cuenta(ini, c) + cuenta(fin, c));
        assert(medio[0] == s[i]);
    }
}

/// Insertar un elemento sube en uno el conteo de esa carta.
pub proof fn lema_cuenta_insert(s: Seq<Carta>, i: int, x: Carta)
    requires
        0 <= i <= s.len(),
    ensures
        forall|c: Carta| cuenta(#[trigger] s.insert(i, x), c) == cuenta(s, c) + if x == c {
            1nat
        } else {
            0nat
        },
{
    lema_cuenta_remove(s.insert(i, x), i);
    assert(s.insert(i, x).remove(i) =~= s);
    assert(s.insert(i, x)[i] == x);
}

/// Quitar el elemento `i` resta su número de la suma.
pub proof fn lema_suma_remove(s: Seq<Carta>, i: int)
    requires
        0 <= i < s.len(),
    ensures
        suma_nums(s) == suma_nums(s.remove(i)) + s[i].num,
{
    let ini = s.subrange(0, i);
    let medio = s.subrange(i, i + 1);
    let fin = s.subrange(i + 1, s.len() as int);
    assert(s =~= (ini + medio) + fin);
    assert(s.remove(i) =~= ini + fin);
    lema_suma_concat(ini + medio, fin);
    lema_suma_concat(ini, medio);
    lema_suma_concat(ini, fin);
    assert(suma_nums(medio) == medio[0].num as int) by {
        assert(suma_nums(medio.drop_last()) == 0);
        assert(medio.last() == medio[0]);
    }
    assert(medio[0] == s[i]);
}

/// En una secuencia sin duplicados cada carta cuenta a lo sumo una vez.
pub proof fn lema_sin_duplicados_cuenta(s: Seq<Carta>)
    requires
        s.no_duplicates(),
    ensures
        forall|c: Carta| cuenta(s, c) <= 1,
    decreases s.len(),
{
    if s.len() > 0 {
        assert(s.drop_last().no_duplicates());
        lema_sin_duplicados_cuenta(s.drop_last());
        lema_cuenta_contiene(s.drop_last());
        assert(!s.drop_last().contains(s.last())) by {
            assert(forall|i: int|
                0 <= i < s.len() - 1 ==> #[trigger] s[i] != s[s.len() - 1]);
        }
        assert(cuenta(s.drop_last(), s.last()) == 0);
        assert forall|c: Carta| cuenta(s, c) <= 1 by {
            assert(cuenta(s, c) == cuenta(s.drop_last(), c) + if s.last() == c {
                1nat
            } else {
                0nat
            });
        }
    }
}

/// Si cada carta cuenta a lo sumo una vez, no hay duplicados.
pub proof fn lema_cuenta_sin_duplicados(s: Seq<Carta>)
    requires
        forall|c: Carta| cuenta(s, c) <= 1,
    ensures
        s.no_duplicates(),
{
    assert forall|i: int, j: int| 0 <= i < j < s.len() implies s[i] != s[j] by {
        if s[i] == s[j] {
            let ini = s.subrange(0, j);
            let fin = s.subrange(j, s.len() as int);
            assert(s =~= ini + fin);
            lema_cuenta_concat(ini, fin);
            lema_cuenta_contiene(ini);
            lema_cuenta_contiene(fin);
            assert(ini[i] == s[i] && ini.contains(s[i]));
            assert(fin[0] == s[j] && fin.contains(s[j]));
            assert(cuenta(s, s[i]) == cuenta(ini + fin, s[i]));
            assert(cuenta(s, s[i]) >= 2);
        }
    }
}

/// Con los mismos conteos, no tener duplicados se traslada.
pub proof fn lema_mismo_conteo_sin_duplicados(a: Seq<Carta>, b: Seq<Carta>)
    requires
        mismo_conteo(a, b),
        a.no_duplicates(),
    ensures
        b.no_duplicates(),
{
    lema_sin_duplicados_cuenta(a);
    assert forall|c: Carta| cuenta(b, c) <= 1 by {
        assert(cuenta(a, c) == cuenta(b, c));
    }
    lema_cuenta_sin_duplicados(b);
}

/// Secuencias con los mismos conteos tienen el mismo largo.
pub proof fn lema_mismo_conteo_largo(a: Seq<Carta>, b: Seq<Carta>)
    requires
        mismo_conteo(a, b),
    ensures
        a.len() == b.len(),
    decreases a.len(),
{
    if a.len() == 0 {
        if b.len() > 0 {
            assert(cuenta(b, b.last()) > 0);
            assert(cuenta(a, b.last()) == 0);
        }
    } else {
        let x = a.last();
        assert(cuenta(a, x) > 0);
        lema_cuenta_contiene(b);
        assert(cuenta(b, x) > 0);
        assert(b.contains(x));
        let i = choose|i: int| 0 <= i < b.len() && b[i] == x;
        lema_cuenta_remove(b, i);
        lema_cuenta_remove(a, a.len() - 1);
        assert(a.remove(a.len() - 1) =~= a.drop_last());
        assert forall|c: Carta| cuenta(a.drop_last(), c) == cuenta(b.remove(i), c) by {
            assert(cuenta(a, c) == cuenta(b, c));
            assert(cuenta(a, c) == cuenta(a.remove(a.len() - 1), c) + if a[a.len() - 1] == c {
                1nat
            } else {
                0nat
            });
            assert(cuenta(b, c) == cuenta(b.remove(i), c) + if b[i] == c {
                1nat
            } else {
                0nat
            });
        }
        lema_mismo_conteo_largo(a.drop_last(), b.remove(i));
    }
}

/// Secuencias con los mismos conteos tienen la misma suma de números.
pub proof fn lema_suma_mismo_conteo(a: Seq<Carta>, b: Seq<Carta>)
    requires
        mismo_conteo(a, b),
    ensures
        suma_nums(a) == suma_nums(b),
    decreases a.len(),
{
    if a.len() == 0 {
        lema_mismo_conteo_largo(a, b);
    } else {
        let x = a.last();
        assert(cuenta(a, x) > 0);
        lema_cuenta_contiene(b);
        assert(cuenta(b, x) > 0);
        assert(b.contains(x));
        let i = choose|i: int| 0 <= i < b.len() && b[i] == x;
        lema_cuenta_remove(b, i);
        lema_cuenta_remove(a, a.len() - 1);
        assert(a.remove(a.len() - 1) =~= a.drop_last());
        assert forall|c: Carta| cuenta(a.drop_last(), c) == cuenta(b.remove(i), c) by {
            assert(cuenta(a, c) == cuenta(b, c));
            assert(cuenta(a, c) == cuenta(a.remove(a.len() - 1), c) + if a[a.len() - 1] == c {
                1nat
            } else {
                0nat
            });
            assert(cuenta(b, c) == cuenta(b.remove(i), c) + if b[i] == c {
                1nat
            } else {
                0nat
            });
        }
        lema_suma_mismo_conteo(a.drop_last(), b.remove(i));
        lema_suma_remove(b, i);
        assert(suma_nums(a) == suma_nums(a.drop_last()) + x.num);
    }
}

/// La suma de números nunca es negativa.
pub proof fn lema_suma_no_negativa(s: Seq<Carta>)
    ensures
        suma_nums(s) >= 0,
    decreases s.len(),
{
    if s.len() > 0 {
        lema_suma_no_negativa(s.drop_last());
    }
}

/// Con menos copias de cada carta, la suma de números no puede ser mayor.
pub proof fn lema_suma_sub_conteo(a: Seq<Carta>, b: Seq<Carta>)
    requires
        sub_conteo(a, b),
    ensures
        suma_nums(a) <= suma_nums(b),
        a.len() <= b.len(),
    decreases a.len(),
{
    if a.len() == 0 {
        lema_suma_no_negativa(b);
    } else {
        let x = a.last();
        assert(cuenta(a, x) > 0);
        lema_cuenta_contiene(b);
        assert(cuenta(b, x) > 0);
        assert(b.contains(x));
        let i = choose|i: int| 0 <= i < b.len() && b[i] == x;
        lema_cuenta_remove(b, i);
        lema_cuenta_remove(a, a.len() - 1);
        assert(a.remove(a.len() - 1) =~= a.drop_last());
        assert forall|c: Carta| cuenta(a.drop_last(), c) <= cuenta(b.remove(i), c) by {
            assert(cuenta(a, c) <= cuenta(b, c));
            assert(cuenta(a, c) == cuenta(a.remove(a.len() - 1), c) + if a[a.len() - 1] == c {
                1nat
            } else {
                0nat
            });
            assert(cuenta(b, c) == cuenta(b.remove(i), c) + if b[i] == c {
                1nat
            } else {
                0nat
            });
        }
        lema_suma_sub_conteo(a.drop_last(), b.remove(i));
        lema_suma_remove(b, i);
        assert(suma_nums(a) == suma_nums(a.drop_last()) + x.num);
    }
}

/// Dos secuencias sin duplicados, del mismo largo, donde una contiene a la
/// otra, tienen exactamente las mismas cartas.
pub proof fn lema_permutacion(a: Seq<Carta>, b: Seq<Carta>)
    requires
        a.no_duplicates(),
        b.no_duplicates(),
        a.len() == b.len(),
        forall|c: Carta| a.contains(c) ==> b.contains(c),
    ensures
        mismo_conteo(a, b),
    decreases a.len(),
{
    if a.len() == 0 {
        assert forall|c: Carta| cuenta(a, c) == cuenta(b, c) by {
            assert(cuenta(a, c) == 0 && cuenta(b, c) == 0);
        }
    } else {
        let x = a.last();
        assert(a[a.len() - 1] == x && a.contains(x));
        assert(b.contains(x));
        let i = choose|i: int| 0 <= i < b.len() && b[i] == x;
        let a2 = a.drop_last();
        let b2 = b.remove(i);
        lema_sin_duplicados_cuenta(a);
        lema_sin_duplicados_cuenta(b);
        lema_cuenta_remove(b, i);
        lema_cuenta_remove(a, a.len() - 1);
        assert(a.remove(a.len() - 1) =~= a2);
        assert(a2.no_duplicates());
        assert(b2.no_duplicates()) by {
            assert forall|c: Carta| cuenta(b2, c) <= 1 by {
                assert(cuenta(b, c) == cuenta(b2, c) + if b[i] == c {
                    1nat
                } else {
                    0nat
                });
            }
            lema_cuenta_sin_duplicados(b2);
        }
        assert forall|c: Carta| a2.contains(c) implies b2.contains(c) by {
            lema_cuenta_contiene(a2);
            lema_cuenta_contiene(a);
            lema_cuenta_contiene(b);
            lema_cuenta_contiene(b2);
            assert(cuenta(a2, c) > 0);
            assert(cuenta(a, c) == cuenta(a2, c) + if x == c {
                1nat
            } else {
                0nat
            });
            assert(c != x) by {
                if c == x {
                    assert(cuenta(a, x) >= 2);
                }
            }
            assert(a.contains(c));
            assert(b.contains(c));
            assert(cuenta(b2, c) == cuenta(b, c));
        }
        lema_permutacion(a2, b2);
        assert forall|c: Carta| cuenta(a, c) == cuenta(b, c) by {
            assert(cuenta(a2, c) == cuenta(b2, c));
            assert(cuenta(a, c) == cuenta(a2, c) + if x == c {
                1nat
            } else {
                0nat
            });
            assert(cuenta(b, c) == cuenta(b2, c) + if b[i] == c {
                1nat
            } else {
                0nat
            });
        }
    }
}

/// Conteo de un filtrado: conserva las copias de las cartas que cumplen el
/// predicado y descarta las demás.
pub proof fn lema_cuenta_filter(s: Seq<Carta>, pred: spec_fn(Carta) -> bool)
    ensures
        forall|c: Carta|
            cuenta(#[trigger] s.filter(pred), c) == if pred(c) {
                cuenta(s, c)
            } else {
                0nat
            },
    decreases s.len(),
{
    reveal(Seq::filter);
    if s.len() > 0 {
        lema_cuenta_filter(s.drop_last(), pred);
        let prev = s.drop_last().filter(pred);
        assert forall|c: Carta|
            cuenta(s.filter(pred), c) == (if pred(c) {
                cuenta(s, c)
            } else {
                0nat
            }) by {
            assert(cuenta(prev, c) == if pred(c) {
                cuenta(s.drop_last(), c)
            } else {
                0nat
            });
            if pred(s.last()) {
                assert(s.filter(pred) == prev.push(s.last()));
                assert(prev.push(s.last()).drop_last() =~= prev);
                assert(prev.push(s.last()).last() == s.last());
                assert(cuenta(prev.push(s.last()), c) == cuenta(prev, c) + if s.last() == c {
                    1nat
                } else {
                    0nat
                });
            }
        }
    }
}

} // verus!
