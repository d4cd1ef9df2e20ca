use chinchon::{seccion_tabla, EstadisticasJugador};

#[test]
fn totales_y_porcentaje() {
    let stats = EstadisticasJugador { victorias: 3, derrotas: 1 };
    assert_eq!(stats.partidas(), 4);
    assert_eq!(stats.porcentaje_ganadas(), Some(75));
}

#[test]
fn sin_partidas_no_hay_porcentaje() {
    let stats = EstadisticasJugador { victorias: 0, derrotas: 0 };
    assert_eq!(stats.partidas(), 0);
    assert_eq!(stats.porcentaje_ganadas(), None);
}

#[test]
fn porcentaje_redondea_hacia_abajo() {
    let stats = EstadisticasJugador { victorias: 1, derrotas: 2 };
    assert_eq!(stats.porcentaje_ganadas(), Some(33));
}

#[test]
fn seccion_con_partidas() {
    let stats = EstadisticasJugador { victorias: 3, derrotas: 1 };
    assert_eq!(
        seccion_tabla("Globales", &stats),
        "**Globales:**\n**Partidas:** 4\n**Ganadas:** 3 (75 %)"
    );
}

#[test]
fn seccion_sin_partidas() {
    let stats = EstadisticasJugador { victorias: 0, derrotas: 0 };
    assert_eq!(seccion_tabla("Globales", &stats), "**Globales:**\n**Partidas:** 0");
}
