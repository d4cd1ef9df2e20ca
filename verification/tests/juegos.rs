use chinchon::{formar_juegos, Carta, Palo};

fn carta(num: u8, palo: Palo) -> Carta {
    Carta { num, palo }
}

fn suma(cartas: &[Carta]) -> i64 {
    cartas.iter().map(|c| c.num as i64).sum()
}

fn mismo_conjunto(a: &[Carta], b: &[Carta]) -> bool {
    a.len() == b.len() && a.iter().all(|c| b.contains(c))
}

#[test]
fn mano_de_escalera_y_grupo() {
    // escalera 3-4-5 de espada, grupo de sietes, y el 9 de espada suelto
    let mano = vec![
        carta(3, Palo::Espada),
        carta(4, Palo::Espada),
        carta(5, Palo::Espada),
        carta(7, Palo::Oro),
        carta(7, Palo::Basto),
        carta(7, Palo::Copa),
        carta(9, Palo::Espada),
    ];
    let (sobrantes, juegos) = formar_juegos(mano);
    assert_eq!(sobrantes, 9);
    assert_eq!(juegos.len(), 2);
    let escalera = vec![
        carta(3, Palo::Espada),
        carta(4, Palo::Espada),
        carta(5, Palo::Espada),
    ];
    let grupo = vec![carta(7, Palo::Oro), carta(7, Palo::Basto), carta(7, Palo::Copa)];
    assert!(
        (mismo_conjunto(&juegos[0], &escalera) && mismo_conjunto(&juegos[1], &grupo))
            || (mismo_conjunto(&juegos[0], &grupo) && mismo_conjunto(&juegos[1], &escalera))
    );
}

#[test]
fn mano_vacia() {
    let (sobrantes, juegos) = formar_juegos(vec![]);
    assert_eq!(sobrantes, 0);
    assert!(juegos.is_empty());
}

#[test]
fn mano_sin_juegos() {
    let mano = vec![
        carta(1, Palo::Oro),
        carta(3, Palo::Copa),
        carta(5, Palo::Espada),
        carta(7, Palo::Basto),
        carta(9, Palo::Oro),
        carta(11, Palo::Copa),
    ];
    let total = suma(&mano);
    let (sobrantes, juegos) = formar_juegos(mano);
    assert_eq!(sobrantes as i64, total);
    assert!(juegos.is_empty());
}

#[test]
fn escalera_de_siete_cartas() {
    let mano: Vec<Carta> = (1..=7).map(|n| carta(n, Palo::Oro)).collect();
    let (sobrantes, juegos) = formar_juegos(mano);
    assert_eq!(sobrantes, 0);
    assert_eq!(juegos.len(), 1);
    assert_eq!(juegos[0].len(), 7);
}

#[test]
fn grupo_de_cuatro_gana_al_de_tres() {
    let mano = vec![
        carta(7, Palo::Oro),
        carta(7, Palo::Copa),
        carta(7, Palo::Espada),
        carta(7, Palo::Basto),
        carta(1, Palo::Oro),
        carta(2, Palo::Copa),
    ];
    let (sobrantes, juegos) = formar_juegos(mano);
    assert_eq!(sobrantes, 3);
    assert_eq!(juegos.len(), 1);
    assert_eq!(juegos[0].len(), 4);
}

#[test]
fn particion_de_la_mano() {
    // la suma de sobrantes más lo que hay dentro de los juegos es la mano
    let mano = vec![
        carta(3, Palo::Espada),
        carta(4, Palo::Espada),
        carta(5, Palo::Espada),
        carta(7, Palo::Oro),
        carta(7, Palo::Basto),
        carta(7, Palo::Copa),
        carta(9, Palo::Espada),
    ];
    let total = suma(&mano);
    let (sobrantes, juegos) = formar_juegos(mano);
    let en_juegos: i64 = juegos.iter().map(|j| suma(j)).sum();
    assert_eq!(sobrantes as i64 + en_juegos, total);
}

#[test]
fn juegos_elegidos_validos_y_sin_solape() {
    let mano = vec![
        carta(1, Palo::Oro),
        carta(2, Palo::Oro),
        carta(3, Palo::Oro),
        carta(3, Palo::Copa),
        carta(3, Palo::Espada),
        carta(4, Palo::Copa),
        carta(5, Palo::Copa),
        carta(2, Palo::Basto),
    ];
    let (_, juegos) = formar_juegos(mano.clone());
    for j in &juegos {
        assert!(j.len() >= 3);
        let es_grupo = j.iter().all(|c| c.num == j[0].num);
        let mut ordenado = j.clone();
        ordenado.sort_by_key(|c| c.num);
        let es_escalera = j.iter().all(|c| c.palo == j[0].palo)
            && ordenado.windows(2).all(|w| w[1].num == w[0].num + 1);
        assert!(es_grupo || es_escalera);
        for c in j {
            assert!(mano.contains(c));
        }
    }
    for a in 0..juegos.len() {
        for b in (a + 1)..juegos.len() {
            for c in &juegos[a] {
                assert!(!juegos[b].contains(c));
            }
        }
    }
}

#[test]
fn puntaje_minimo_contra_fuerza_bruta() {
    // compara el sobrante con el mínimo entre todas las selecciones válidas,
    // enumeradas a fuerza bruta sobre los subconjuntos de la mano
    let mano = vec![
        carta(1, Palo::Oro),
        carta(2, Palo::Oro),
        carta(3, Palo::Oro),
        carta(4, Palo::Oro),
        carta(4, Palo::Copa),
        carta(4, Palo::Espada),
        carta(4, Palo::Basto),
    ];
    let total = suma(&mano);
    let (sobrantes, _) = formar_juegos(mano.clone());
    let mut mejor: i64 = 0;
    // todos los pares de sub-conjuntos disjuntos que formen juegos válidos
    let n = mano.len();
    for mascara in 0u32..(1 << n) {
        let elegidas: Vec<Carta> = (0..n).filter(|i| mascara & (1 << i) != 0).map(|i| mano[i]).collect();
        if !es_juego(&elegidas) {
            continue;
        }
        for mascara2 in 0u32..(1 << n) {
            if mascara & mascara2 != 0 {
                continue;
            }
            let otras: Vec<Carta> = (0..n).filter(|i| mascara2 & (1 << i) != 0).map(|i| mano[i]).collect();
            if mascara2 != 0 && !es_juego(&otras) {
                continue;
            }
            let peso = suma(&elegidas) + suma(&otras);
            if peso > mejor {
                mejor = peso;
            }
        }
    }
    assert_eq!(sobrantes as i64, total - mejor);
}

fn es_juego(cartas: &[Carta]) -> bool {
    if cartas.len() < 3 {
        return false;
    }
    let grupo = cartas.len() <= 4 && cartas.iter().all(|c| c.num == cartas[0].num);
    let mut ordenado = cartas.to_vec();
    ordenado.sort_by_key(|c| c.num);
    let escalera = cartas.len() <= 7
        && cartas.iter().all(|c| c.palo == cartas[0].palo)
        && ordenado.windows(2).all(|w| w[1].num == w[0].num + 1);
    grupo || escalera
}

#[test]
fn mismo_resultado_en_dos_llamadas() {
    let mano = vec![
        carta(3, Palo::Espada),
        carta(4, Palo::Espada),
        carta(5, Palo::Espada),
        carta(7, Palo::Oro),
        carta(7, Palo::Basto),
        carta(7, Palo::Copa),
        carta(9, Palo::Espada),
    ];
    let primera = formar_juegos(mano.clone());
    let segunda = formar_juegos(mano);
    assert_eq!(primera.0, segunda.0);
    assert_eq!(primera.1, segunda.1);
}
