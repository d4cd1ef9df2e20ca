use chinchon::{Carta, CartaFromStrErr, Palo, PaloFromStrError};
use chinchon::{lista_cartas, mensaje_cartas};

fn carta(num: u8, palo: Palo) -> Carta {
    Carta { num, palo }
}

#[test]
fn nombre_de_carta() {
    assert_eq!(carta(3, Palo::Oro).nombre(), "3 de oro");
    assert_eq!(carta(10, Palo::Espada).nombre(), "10 de espada");
    assert_eq!(carta(1, Palo::Copa).nombre(), "1 de copas");
    assert_eq!(carta(12, Palo::Basto).nombre(), "12 de basto");
}

#[test]
fn nombre_de_palo() {
    assert_eq!(Palo::Copa.nombre(), "copas");
    assert_eq!(Palo::Espada.nombre(), "espada");
    assert_eq!(Palo::Oro.nombre(), "oro");
    assert_eq!(Palo::Basto.nombre(), "basto");
}

#[test]
fn parse_palo_acepta_alias() {
    assert_eq!(Palo::parse("oro").unwrap(), Palo::Oro);
    assert_eq!(Palo::parse("o").unwrap(), Palo::Oro);
    assert_eq!(Palo::parse("ESPADAS").unwrap(), Palo::Espada);
    assert_eq!(Palo::parse("esp").unwrap(), Palo::Espada);
    assert_eq!(Palo::parse("Copa").unwrap(), Palo::Copa);
    assert_eq!(Palo::parse("b").unwrap(), Palo::Basto);
    assert_eq!(Palo::parse("palos").unwrap(), Palo::Basto);
    assert_eq!(Palo::parse("p").unwrap(), Palo::Basto);
}

#[test]
fn parse_palo_rechaza_y_guarda_el_texto() {
    let e: PaloFromStrError = Palo::parse("diamantes").unwrap_err();
    assert_eq!(e.string, "diamantes");
}

#[test]
fn parse_carta_formas_usuales() {
    assert_eq!(Carta::parse("3 de oro").unwrap(), carta(3, Palo::Oro));
    assert_eq!(Carta::parse("10 espadas").unwrap(), carta(10, Palo::Espada));
    assert_eq!(Carta::parse("7c").unwrap(), carta(7, Palo::Copa));
    assert_eq!(Carta::parse("12 DE BASTOS").unwrap(), carta(12, Palo::Basto));
    assert_eq!(Carta::parse("1 d oro").unwrap(), carta(1, Palo::Oro));
}

#[test]
fn parse_carta_numero_invalido() {
    match Carta::parse("0 de oro") {
        Err(CartaFromStrErr::NumeroInvalido(n)) => assert_eq!(n, 0),
        _ => panic!("esperaba NumeroInvalido"),
    }
    match Carta::parse("13 copas") {
        Err(CartaFromStrErr::NumeroInvalido(n)) => assert_eq!(n, 13),
        _ => panic!("esperaba NumeroInvalido"),
    }
}

#[test]
fn parse_carta_palo_invalido() {
    match Carta::parse("5 de treboles") {
        Err(CartaFromStrErr::PaloInvalido(s)) => assert_eq!(s, "treboles"),
        _ => panic!("esperaba PaloInvalido"),
    }
    // el texto rechazado se informa ya en minúsculas
    match Carta::parse("5 DE TREBOLES") {
        Err(CartaFromStrErr::PaloInvalido(s)) => assert_eq!(s, "treboles"),
        _ => panic!("esperaba PaloInvalido"),
    }
}

#[test]
fn parse_carta_sin_codigo() {
    assert!(matches!(
        Carta::parse("sin numero alguno"),
        Err(CartaFromStrErr::CodigoNoEncontrado)
    ));
    assert!(matches!(
        Carta::parse(""),
        Err(CartaFromStrErr::CodigoNoEncontrado)
    ));
}

#[test]
fn mensaje_con_cartas() {
    let cartas = vec![carta(3, Palo::Oro), carta(10, Palo::Espada)];
    assert_eq!(lista_cartas(&cartas), "│ 3 de oro │ 10 de espada │");
    assert_eq!(
        mensaje_cartas(&cartas),
        "Tus cartas: │ 3 de oro │ 10 de espada │"
    );
}

#[test]
fn mensaje_sin_cartas() {
    let cartas: Vec<Carta> = vec![];
    assert_eq!(mensaje_cartas(&cartas), "Tus cartas: │  │");
}
