use bomberman_r::bomberman::detonar_bomba;
use bomberman_r::bomberman::detonar_bomba_recursive;
use bomberman_r::bomberman::lanzar_rayo;
use bomberman_r::bomberman::obtener_direccion_del_desvio;
use bomberman_r::bomberman::quitar_vida_enemigo;
use bomberman_r::falla::Falla;
use bomberman_r::model::celda::Celda;
use bomberman_r::model::direccion::Direccion;
use bomberman_r::model::laberinto::Laberinto;
use bomberman_r::model::objeto::Objeto;

fn cargar_de_texto(texto: &str) -> Laberinto {
    let lineas: Vec<Vec<char>> = texto.lines().map(|linea| linea.chars().collect()).collect();
    match Laberinto::desde_lineas(&lineas) {
        Ok(laberinto) => laberinto,
        Err(e) => panic!("Error al cargar el laberinto: {:?}", e),
    }
}

#[test]
fn test_quitar_vida_a_enemigo() {
    // Crea una celda con un enemigo con 3 vidas
    let mut celda = Celda {
        objeto: Objeto::Enemigo(3),
        x: 1,
        y: 1,
    };

    quitar_vida_enemigo(&mut celda);

    // Verifica que el enemigo haya perdido una vida
    assert!(matches!(celda.objeto, Objeto::Enemigo(2)));
}

#[test]
fn test_obtener_direccion_del_desvio() {
    let celda_con_desvio = Celda {
        objeto: Objeto::Desvio(Direccion::Arriba),
        x: 1,
        y: 1,
    };

    let celda_sin_desvio = Celda {
        objeto: Objeto::Pared,
        x: 2,
        y: 2,
    };

    // Deberia ser una direccion hacia arriba
    assert_eq!(obtener_direccion_del_desvio(&celda_con_desvio), Some((0, -1)));

    // No deberia haber direccion de desvio
    assert_eq!(obtener_direccion_del_desvio(&celda_sin_desvio), None);
}

#[test]
fn test_detonar_bomba_1() {
    let contenido = "\
        B2 R R _ F1 _ _\n\
        _ W R W _ W _\n\
        B5 _ _ _ B2 _ _\n\
        _ W _ W _ W _\n\
        _ _ _ _ _ _ _\n\
        _ W _ W _ W _\n\
        _ _ _ _ _ _ _\n";

    let mut laberinto = cargar_de_texto(contenido);
    let _ = detonar_bomba(&mut laberinto, 4, 2);

    // Verificar que la celda de la bomba se haya vuelto Vacio
    let bomba = &laberinto.grid[2][4].objeto;
    assert_eq!(bomba, &Objeto::Vacio);

    // Verificar que la celda del enemigo se haya vuelto Vacio
    let enemigo = &laberinto.grid[0][4].objeto;
    assert_eq!(enemigo, &Objeto::Vacio);

    // Verificar que la celda de la pared siga siendo Pared
    let pared = &laberinto.grid[1][1].objeto;
    assert_eq!(pared, &Objeto::Pared);

    // Verificar que otras celdas no se vean afectadas
    let celda1 = &laberinto.grid[0][0].objeto;
    assert_ne!(celda1, &Objeto::Vacio);

    let celda2 = &laberinto.grid[1][2].objeto;
    assert_ne!(celda2, &Objeto::Vacio);
}

#[test]
fn test_detonar_bomba_otro_laberinto() {
    let contenido = "\
        _ _ B2 _ B1 _ _\n\
        _ _ _ _ _ _ _\n\
        _ _ _ R F1 _ _\n\
        _ _ _ _ _ _ _\n\
        _ _ B4 _ _ _ _\n\
        _ _ _ _ _ _ _\n\
        _ _ _ _ _ _ B1\n";

    let mut laberinto = cargar_de_texto(contenido);
    let detonar_result = detonar_bomba(&mut laberinto, 2, 4);
    assert!(detonar_result.is_ok());

    // Verificar que la celda B2 se haya vuelto Vacio
    let celda1 = &laberinto.grid[0][2].objeto;
    assert_eq!(celda1, &Objeto::Vacio);

    // Verificar que la celda B1 se haya vuelto Vacio
    let celda2 = &laberinto.grid[0][4].objeto;
    assert_eq!(celda2, &Objeto::Vacio);

    // Verificar que otras celdas no se vean afectadas
    let celda3 = &laberinto.grid[1][0].objeto;
    assert_eq!(celda3, &Objeto::Vacio);

    let celda4 = &laberinto.grid[2][3].objeto;
    assert_eq!(celda4, &Objeto::Roca);

    let enemigo = &laberinto.grid[2][4].objeto;
    assert_eq!(enemigo, &Objeto::Enemigo(1));

    let ultima_celda = &laberinto.grid[6][6].objeto;
    assert_eq!(ultima_celda, &Objeto::Bomba(1));
}

#[test]
fn test_detonar_bomba_3() {
    let contenido = "\
        B2 _ B2 _ B2 _ _\n\
        _ _ _ _ _ _ _\n\
        _ _ _ R F1 _ _\n\
        _ _ _ _ _ _ _\n\
        B4 _ _ _ _ _ _\n\
        _ _ _ _ _ _ _\n\
        _ _ _ _ _ _ _\n";

    let mut laberinto = cargar_de_texto(contenido);
    let detonar_result = detonar_bomba(&mut laberinto, 0, 4);
    assert!(detonar_result.is_ok());

    let celda1 = &laberinto.grid[0][2].objeto;
    assert_eq!(celda1, &Objeto::Vacio);

    let celda2 = &laberinto.grid[0][4].objeto;
    assert_eq!(celda2, &Objeto::Vacio);

    // Verificar que otras celdas no se vean afectadas
    let celda3 = &laberinto.grid[1][0].objeto;
    assert_eq!(celda3, &Objeto::Vacio);

    let celda4 = &laberinto.grid[2][3].objeto;
    assert_eq!(celda4, &Objeto::Roca);

    let enemigo = &laberinto.grid[2][4].objeto;
    assert_eq!(enemigo, &Objeto::Vacio);
}

#[test]
fn test_detonar_fuera_de_limites() {
    let contenido = "B1 _\n_ _\n";
    let mut laberinto = cargar_de_texto(contenido);
    let copia = laberinto.grid.clone();

    // Ambas coordenadas al borde del laberinto fallan sin tocar nada
    assert_eq!(
        detonar_bomba(&mut laberinto, 2, 0),
        Err(Falla::FueraDeLimites)
    );
    assert_eq!(
        detonar_bomba(&mut laberinto, 0, 2),
        Err(Falla::FueraDeLimites)
    );
    assert_eq!(laberinto.grid, copia);
}

#[test]
fn test_detonar_sin_bomba_no_cambia() {
    let contenido = "_ R F3\nW DL _\n_ B2 _\n";
    let mut laberinto = cargar_de_texto(contenido);
    let copia = laberinto.grid.clone();

    // Detonar celdas con vacio, roca, enemigo, pared o desvio no cambia nada
    assert!(detonar_bomba(&mut laberinto, 0, 0).is_ok());
    assert!(detonar_bomba(&mut laberinto, 1, 0).is_ok());
    assert!(detonar_bomba(&mut laberinto, 2, 0).is_ok());
    assert!(detonar_bomba(&mut laberinto, 0, 1).is_ok());
    assert!(detonar_bomba(&mut laberinto, 1, 1).is_ok());
    assert_eq!(laberinto.grid, copia);
}

#[test]
fn test_detonar_bomba_recursive_directo() {
    // La explosion completa de una bomba, invocada directamente
    let contenido = "B2 F1 _\n_ _ _\n_ _ _\n";
    let mut laberinto = cargar_de_texto(contenido);
    detonar_bomba_recursive(&mut laberinto, 0, 0, 2, false);
    assert_eq!(laberinto.grid[0][0].objeto, Objeto::Vacio);
    assert_eq!(laberinto.grid[0][1].objeto, Objeto::Vacio);
}

#[test]
fn test_lanzar_rayo_directo() {
    // Un solo rayo hacia la derecha: dana al enemigo que alcanza
    let contenido = "_ F2 _\n_ _ _\n_ _ _\n";
    let mut laberinto = cargar_de_texto(contenido);
    let mut visitado = vec![vec![false; 3]; 3];
    visitado[0][0] = true;
    lanzar_rayo(&mut laberinto, &mut visitado, 0, 0, 1, 0, 2, false);
    assert_eq!(laberinto.grid[0][1].objeto, Objeto::Enemigo(1));
    assert!(visitado[0][1]);
    assert!(visitado[0][2]);
}

#[test]
fn test_bomba_de_alcance_cero() {
    // Una bomba de alcance 0 solo se consume a si misma
    let contenido = "B0 F1\n_ _\n";
    let mut laberinto = cargar_de_texto(contenido);
    assert!(detonar_bomba(&mut laberinto, 0, 0).is_ok());
    assert_eq!(laberinto.grid[0][0].objeto, Objeto::Vacio);
    assert_eq!(laberinto.grid[0][1].objeto, Objeto::Enemigo(1));
}

#[test]
fn test_rebote_entre_desvios() {
    // El rayo rebota entre dos desvios enfrentados, pero los marcadores
    // aseguran que el enemigo del medio pierda una sola vida
    let contenido = "B9 DD _\n_ F2 _\n_ DU _\n";
    let mut laberinto = cargar_de_texto(contenido);
    assert!(detonar_bomba(&mut laberinto, 0, 0).is_ok());
    assert_eq!(laberinto.grid[1][1].objeto, Objeto::Enemigo(1));
    assert_eq!(laberinto.grid[0][1].objeto, Objeto::Desvio(Direccion::Abajo));
    assert_eq!(laberinto.grid[2][1].objeto, Objeto::Desvio(Direccion::Arriba));
}

#[test]
fn test_pared_bloquea() {
    // Una pared a un paso de la bomba detiene ese rayo: las celdas que
    // siguen quedan intactas, sea o no de traspaso la bomba
    let contenido = "\
        B2 W F1 _\n\
        _ _ _ _\n\
        _ _ _ _\n\
        _ _ _ _\n";
    let mut laberinto = cargar_de_texto(contenido);
    assert!(detonar_bomba(&mut laberinto, 0, 0).is_ok());
    assert_eq!(laberinto.grid[0][1].objeto, Objeto::Pared);
    assert_eq!(laberinto.grid[0][2].objeto, Objeto::Enemigo(1));

    let contenido = "\
        S2 W F1 _\n\
        _ _ _ _\n\
        _ _ _ _\n\
        _ _ _ _\n";
    let mut laberinto = cargar_de_texto(contenido);
    assert!(detonar_bomba(&mut laberinto, 0, 0).is_ok());
    assert_eq!(laberinto.grid[0][1].objeto, Objeto::Pared);
    assert_eq!(laberinto.grid[0][2].objeto, Objeto::Enemigo(1));
}

#[test]
fn test_traspaso_roca() {
    // La bomba de traspaso atraviesa la roca y destruye al enemigo;
    // la roca queda en su lugar
    let contenido = "S3 R F1\n_ _ _\n_ _ _\n";
    let mut laberinto = cargar_de_texto(contenido);
    assert!(detonar_bomba(&mut laberinto, 0, 0).is_ok());
    assert_eq!(laberinto.grid[0][1].objeto, Objeto::Roca);
    assert_eq!(laberinto.grid[0][2].objeto, Objeto::Vacio);

    // La bomba comun queda bloqueada por la roca: el enemigo no sufre
    let contenido = "B3 R F1\n_ _ _\n_ _ _\n";
    let mut laberinto = cargar_de_texto(contenido);
    assert!(detonar_bomba(&mut laberinto, 0, 0).is_ok());
    assert_eq!(laberinto.grid[0][1].objeto, Objeto::Roca);
    assert_eq!(laberinto.grid[0][2].objeto, Objeto::Enemigo(1));
}

#[test]
fn test_desvio() {
    // El desvio dobla el rayo hacia abajo: dana al enemigo en (1, 1)
    // y no sigue hacia la derecha en la fila 0
    let contenido = "B2 DD F9\n_ F1 _\n_ _ _\n";
    let mut laberinto = cargar_de_texto(contenido);
    assert!(detonar_bomba(&mut laberinto, 0, 0).is_ok());
    assert_eq!(laberinto.grid[1][1].objeto, Objeto::Vacio);
    assert_eq!(laberinto.grid[0][2].objeto, Objeto::Enemigo(9));
    // El desvio mismo no sufre dano
    assert_eq!(laberinto.grid[0][1].objeto, Objeto::Desvio(Direccion::Abajo));
}

#[test]
fn test_cadena() {
    // La bomba A (alcance 1) enciende a B (alcance 5), cuya propia
    // explosion destruye al enemigo que A jamas habria alcanzado
    let contenido = "\
        B1 B5 _ _ _ _ F1\n\
        _ _ _ _ _ _ _\n\
        _ _ _ _ _ _ _\n\
        _ _ _ _ _ _ _\n\
        _ _ _ _ _ _ _\n\
        _ _ _ _ _ _ _\n\
        _ _ _ _ _ _ _\n";
    let mut laberinto = cargar_de_texto(contenido);
    assert!(detonar_bomba(&mut laberinto, 0, 0).is_ok());
    assert_eq!(laberinto.grid[0][0].objeto, Objeto::Vacio);
    assert_eq!(laberinto.grid[0][1].objeto, Objeto::Vacio);
    assert_eq!(laberinto.grid[0][6].objeto, Objeto::Vacio);
}
