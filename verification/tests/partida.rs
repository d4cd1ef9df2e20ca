use chinchon::{
    Carta, DatosJugador, ErrorCortar, ErrorLevantar, ErrorTirar, Palo, Partida, PilaCartas,
    RegistroPartida,
};

fn carta(num: u8, palo: Palo) -> Carta {
    Carta { num, palo }
}

fn ordenada(mut cartas: Vec<Carta>) -> Vec<Carta> {
    cartas.sort_by_key(|c| {
        let palo = match c.palo {
            Palo::Copa => 0u16,
            Palo::Espada => 1,
            Palo::Oro => 2,
            Palo::Basto => 3,
        };
        c.num as u16 * 4 + palo
    });
    cartas
}

fn baraja_sin(usadas: &[Carta]) -> Vec<Carta> {
    let mut resto = Vec::new();
    for num in 1..=12u8 {
        for palo in [Palo::Copa, Palo::Espada, Palo::Oro, Palo::Basto] {
            let c = carta(num, palo);
            if !usadas.contains(&c) {
                resto.push(c);
            }
        }
    }
    resto
}

fn jugador(id: u64, puntos: i16, mano: Vec<Carta>) -> DatosJugador {
    DatosJugador {
        id,
        mano: ordenada(mano),
        puntos,
        votos_expulsar: vec![],
        eliminado: false,
    }
}

fn partida_de_dos(mano_a: Vec<Carta>, puntos_a: i16, mano_b: Vec<Carta>, puntos_b: i16) -> Partida {
    let mut usadas = mano_a.clone();
    usadas.extend(mano_b.iter().cloned());
    let registro = RegistroPartida {
        mazo: baraja_sin(&usadas),
        descartes: vec![],
        pila_ultimo_levante: None,
        jugadores: vec![jugador(1, puntos_a, mano_a), jugador(2, puntos_b, mano_b)],
        turno: 0,
        inicia_prox_ronda: 1,
        ultima_jugada: 0,
    };
    Partida::desde_registro(registro).expect("el registro debe ser valido")
}

#[test]
fn empezar_reparte_ocho_y_siete() {
    let p = Partida::empezar(&[10, 20]);
    assert_eq!(p.get_turno(), 10);
    assert_eq!(p.get_cartas(10).len(), 8);
    assert_eq!(p.get_cartas(20).len(), 7);
    // el mazo queda con las 33 cartas sin repartir
    assert_eq!(p.a_registro().mazo.len(), 33);
    assert_eq!(p.jugadores_en_juego(), 2);
    assert!(p.ganador().is_none());
    assert!(p.get_descarte().is_none());
    assert!(p.get_pila_ultimo_levante().is_none());
    let puntos = p.get_puntos();
    assert_eq!(puntos, vec![(10, 0), (20, 0)]);
}

#[test]
fn tirar_y_levantar_del_descarte() {
    let mut p = Partida::empezar(&[1, 2]);
    let mano = p.get_cartas(1);
    let tirada = mano[0];
    assert_eq!(p.tirar(1, tirada), Ok(()));
    assert_eq!(p.get_turno(), 2);
    assert_eq!(p.get_descarte(), Some(tirada));
    // el otro jugador levanta justo esa carta
    assert_eq!(p.levantar(2, PilaCartas::Descartes), Ok(tirada));
    assert_eq!(p.get_cartas(2).len(), 8);
    assert_eq!(p.get_pila_ultimo_levante(), Some(PilaCartas::Descartes));
    assert!(p.get_cartas(2).contains(&tirada));
}

#[test]
fn errores_de_turno_y_tamano() {
    let mut p = Partida::empezar(&[1, 2]);
    // el jugador 2 no tiene el turno
    let carta_ajena = p.get_cartas(2)[0];
    assert_eq!(p.tirar(2, carta_ajena), Err(ErrorTirar::NoEsTurno));
    assert_eq!(p.levantar(2, PilaCartas::Mazo), Err(ErrorLevantar::NoEsTurno));
    // el jugador 1 ya tiene ocho cartas: no puede levantar, debe bajar
    assert_eq!(p.levantar(1, PilaCartas::Mazo), Err(ErrorLevantar::DebeBajar));
    // tirar una carta que no tiene (la tiene el otro)
    assert_eq!(p.tirar(1, carta_ajena), Err(ErrorTirar::NoTieneCarta));
    // tras tirar pasa el turno, y el que sigue debe levantar antes de tirar
    let mia = p.get_cartas(1)[0];
    assert_eq!(p.tirar(1, mia), Ok(()));
    let de2 = p.get_cartas(2)[0];
    assert_eq!(p.tirar(2, de2), Err(ErrorTirar::DebeLevantar));
}

#[test]
fn levantar_del_mazo_nunca_falla() {
    // se vacía el mazo a fuerza de levantar y tirar: al agotarse se recicla
    // la pila de descartes y levantar sigue andando
    let mut p = Partida::empezar(&[1, 2]);
    // quien abre ya tiene ocho cartas: primero baja una
    let primera = p.get_cartas(p.get_turno())[0];
    assert_eq!(p.tirar(p.get_turno(), primera), Ok(()));
    for _ in 0..60 {
        let turno = p.get_turno();
        let levantada = p
            .levantar(turno, PilaCartas::Mazo)
            .expect("levantar del mazo no debe fallar");
        assert_eq!(p.tirar(turno, levantada), Ok(()));
    }
}

#[test]
fn votacion_expulsa_con_mayoria_estricta() {
    let mut p = Partida::empezar(&[1, 2, 3]);
    // con tres en juego hacen falta dos votos (estrictamente mas de 3/2)
    assert_eq!(p.votar_expulsar_a(1, 3), Ok(false));
    assert_eq!(p.jugadores_en_juego(), 3);
    assert_eq!(p.votar_expulsar_a(2, 3), Ok(true));
    assert_eq!(p.jugadores_en_juego(), 2);
    assert!(p.ganador().is_none());
}

#[test]
fn votar_a_alguien_que_no_esta() {
    let mut p = Partida::empezar(&[1, 2]);
    assert!(p.votar_expulsar_a(1, 99).is_err());
}

#[test]
fn abandonar_deja_ganador() {
    let mut p = Partida::empezar(&[1, 2, 3]);
    p.abandonar(3);
    assert_eq!(p.jugadores_en_juego(), 2);
    assert!(p.ganador().is_none());
    p.abandonar(2);
    assert_eq!(p.jugadores_en_juego(), 1);
    assert_eq!(p.ganador(), Some(1));
}

#[test]
fn registro_va_y_vuelve() {
    let p = Partida::empezar(&[7, 8, 9]);
    let registro = p.a_registro();
    let q = Partida::desde_registro(registro).expect("el registro de una partida es valido");
    assert_eq!(q.get_turno(), p.get_turno());
    assert_eq!(q.get_puntos(), p.get_puntos());
    assert_eq!(q.get_cartas(7), p.get_cartas(7));
    assert_eq!(q.jugadores_en_juego(), 3);
}

#[test]
fn registro_invalido_se_rechaza() {
    // un solo jugador no forma partida
    let registro = RegistroPartida {
        mazo: baraja_sin(&[]),
        descartes: vec![],
        pila_ultimo_levante: None,
        jugadores: vec![jugador(1, 0, vec![])],
        turno: 0,
        inicia_prox_ronda: 0,
        ultima_jugada: 0,
    };
    assert!(Partida::desde_registro(registro).is_none());
}

#[test]
fn cortar_fuera_de_turno() {
    let mut p = Partida::empezar(&[1, 2]);
    assert!(matches!(p.cortar(2, None), Err(ErrorCortar::NoEsTurno)));
}

#[test]
fn cortar_con_puntaje_alto_no_cambia_nada() {
    // mano sin juego posible: cerrar falla y el estado queda como estaba,
    // las dos veces que se intente
    let mano_a = vec![
        carta(1, Palo::Oro),
        carta(4, Palo::Copa),
        carta(7, Palo::Espada),
        carta(10, Palo::Basto),
        carta(2, Palo::Oro),
        carta(5, Palo::Copa),
        carta(8, Palo::Espada),
    ];
    let mano_b = vec![
        carta(1, Palo::Copa),
        carta(4, Palo::Oro),
        carta(7, Palo::Basto),
        carta(10, Palo::Espada),
        carta(2, Palo::Copa),
        carta(5, Palo::Oro),
        carta(8, Palo::Basto),
    ];
    let mut p = partida_de_dos(mano_a, 0, mano_b, 0);
    let antes = p.get_cartas(1);
    assert!(matches!(p.cortar(1, None), Err(ErrorCortar::PuntajeMuyAlto)));
    assert_eq!(p.get_cartas(1), antes);
    assert!(matches!(p.cortar(1, None), Err(ErrorCortar::PuntajeMuyAlto)));
    assert_eq!(p.get_cartas(1), antes);
    assert_eq!(p.get_turno(), 1);
    assert_eq!(p.get_puntos(), vec![(1, 0), (2, 0)]);
}

#[test]
fn cortar_suma_y_elimina_al_que_pasa_de_cien() {
    // el que corta deja 1 punto; el otro, con 98, carga 3 y queda en 101:
    // eliminado, y el que corta es el ganador
    let mano_a = vec![
        carta(1, Palo::Oro),
        carta(2, Palo::Oro),
        carta(3, Palo::Oro),
        carta(1, Palo::Copa),
        carta(2, Palo::Copa),
        carta(3, Palo::Copa),
        carta(1, Palo::Espada),
    ];
    let mano_b = vec![
        carta(4, Palo::Oro),
        carta(5, Palo::Oro),
        carta(6, Palo::Oro),
        carta(4, Palo::Copa),
        carta(5, Palo::Copa),
        carta(6, Palo::Copa),
        carta(3, Palo::Basto),
    ];
    let mut p = partida_de_dos(mano_a, 0, mano_b, 98);
    let resultados = p.cortar(1, None).expect("cerrar con 1 punto sobrante");
    assert_eq!(resultados.len(), 2);
    assert_eq!(resultados[0].jugador, 1);
    assert_eq!(resultados[0].puntos_sumados, 1);
    assert_eq!(resultados[0].puntos_total, 1);
    assert!(!resultados[0].perdio);
    assert!(!resultados[0].chinchon);
    assert_eq!(resultados[1].jugador, 2);
    assert_eq!(resultados[1].puntos_sumados, 3);
    assert_eq!(resultados[1].puntos_total, 101);
    assert!(resultados[1].perdio);
    assert_eq!(resultados[1].sobrantes, vec![carta(3, Palo::Basto)]);
    assert_eq!(p.jugadores_en_juego(), 1);
    assert_eq!(p.ganador(), Some(1));
}

#[test]
fn chinchon_reparte_mil_a_los_demas() {
    // el que corta cierra una escalera de siete: chinchón, anota -10 y el
    // otro carga 1000 puntos y pierde
    let mano_a: Vec<Carta> = (1..=7).map(|n| carta(n, Palo::Oro)).collect();
    let mano_b = vec![
        carta(1, Palo::Copa),
        carta(3, Palo::Copa),
        carta(5, Palo::Copa),
        carta(7, Palo::Copa),
        carta(9, Palo::Copa),
        carta(11, Palo::Copa),
        carta(2, Palo::Basto),
    ];
    let mut p = partida_de_dos(mano_a, 20, mano_b, 0);
    let resultados = p.cortar(1, None).expect("el chinchon cierra");
    assert_eq!(resultados[0].jugador, 1);
    assert!(resultados[0].chinchon);
    assert_eq!(resultados[0].puntos_sumados, -10);
    assert_eq!(resultados[0].puntos_total, 10);
    assert_eq!(resultados[0].juegos.len(), 1);
    assert_eq!(resultados[0].juegos[0].len(), 7);
    assert!(resultados[0].sobrantes.is_empty());
    assert_eq!(resultados[1].jugador, 2);
    assert!(resultados[1].perdio);
    assert!(resultados[1].puntos_total >= 1000);
    assert_eq!(p.ganador(), Some(1));
}

#[test]
fn cortar_soltando_una_carta() {
    // con ocho cartas se corta soltando la octava
    let mano_a = vec![
        carta(1, Palo::Oro),
        carta(2, Palo::Oro),
        carta(3, Palo::Oro),
        carta(1, Palo::Copa),
        carta(2, Palo::Copa),
        carta(3, Palo::Copa),
        carta(2, Palo::Espada),
        carta(11, Palo::Basto),
    ];
    let mano_b = vec![
        carta(4, Palo::Oro),
        carta(5, Palo::Oro),
        carta(6, Palo::Oro),
        carta(4, Palo::Copa),
        carta(5, Palo::Copa),
        carta(6, Palo::Copa),
        carta(3, Palo::Basto),
    ];
    let mut usadas = mano_a.clone();
    usadas.extend(mano_b.iter().cloned());
    let registro = RegistroPartida {
        mazo: baraja_sin(&usadas),
        descartes: vec![],
        pila_ultimo_levante: None,
        jugadores: vec![jugador(1, 0, mano_a), jugador(2, 0, mano_b)],
        turno: 0,
        inicia_prox_ronda: 1,
        ultima_jugada: 0,
    };
    let mut p = Partida::desde_registro(registro).expect("registro valido");
    // soltar una carta que no tiene
    assert!(matches!(
        p.cortar(1, Some(carta(12, Palo::Espada))),
        Err(ErrorCortar::NoTieneCarta)
    ));
    // soltar la carta alta y quedarse con 2 puntos sobrantes
    let resultados = p.cortar(1, Some(carta(11, Palo::Basto))).expect("cerrar");
    assert_eq!(resultados[0].puntos_sumados, 2);
    assert_eq!(resultados[0].sobrantes, vec![carta(2, Palo::Espada)]);
    // sigue la partida: se repartió una ronda nueva
    assert_eq!(p.jugadores_en_juego(), 2);
    assert!(p.get_descarte().is_none());
}

#[test]
fn cortar_sin_soltar_exige_siete() {
    let mut p = Partida::empezar(&[1, 2]);
    // el que abre tiene ocho cartas: sin soltar no puede cerrar
    assert!(matches!(p.cortar(1, None), Err(ErrorCortar::DebeBajar)));
    // y soltando necesita tener la carta
    let ajena = p.get_cartas(2)[0];
    assert!(!p.get_cartas(1).contains(&ajena));
    assert!(matches!(p.cortar(1, Some(ajena)), Err(ErrorCortar::NoTieneCarta)));
}

#[test]
fn puede_cortar_consulta_sin_cambiar() {
    let mano_a = vec![
        carta(1, Palo::Oro),
        carta(2, Palo::Oro),
        carta(3, Palo::Oro),
        carta(1, Palo::Copa),
        carta(2, Palo::Copa),
        carta(3, Palo::Copa),
        carta(1, Palo::Espada),
    ];
    let mano_b = vec![
        carta(4, Palo::Oro),
        carta(5, Palo::Oro),
        carta(6, Palo::Oro),
        carta(4, Palo::Copa),
        carta(5, Palo::Copa),
        carta(6, Palo::Copa),
        carta(3, Palo::Basto),
    ];
    let p = partida_de_dos(mano_a, 0, mano_b, 0);
    // quitando cualquier carta que no tenga, la mano queda igual y cierra
    assert!(p.puede_cortar(1, carta(12, Palo::Basto)));
    assert_eq!(p.get_cartas(1).len(), 7);
}

#[test]
fn marca_de_tiempo_se_guarda_y_mide() {
    let mut p = Partida::empezar(&[1, 2]);
    assert_eq!(p.tiempo_inactivo(40), 40);
    p.marcar_jugada(100);
    assert_eq!(p.tiempo_inactivo(160), 60);
    // un reloj que quedó atrás no da tiempos negativos
    assert_eq!(p.tiempo_inactivo(90), 0);
    // el instante viaja con el registro plano
    let registro = p.a_registro();
    assert_eq!(registro.ultima_jugada, 100);
    let q = Partida::desde_registro(registro).expect("registro valido");
    assert_eq!(q.tiempo_inactivo(150), 50);
}
