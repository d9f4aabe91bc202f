use bomberman_r::falla::Falla;
use bomberman_r::model::celda::Celda;
use bomberman_r::model::direccion::Direccion;
use bomberman_r::model::laberinto::Laberinto;
use bomberman_r::model::objeto::Objeto;

fn filas_de_texto(texto: &str) -> Vec<Vec<char>> {
    texto.lines().map(|linea| linea.chars().collect()).collect()
}

fn caracteres(texto: &str) -> Vec<char> {
    texto.chars().collect()
}

#[test]
fn test_eliminar_espacios() {
    let linea = caracteres("A B C1 D E2");
    let linea_limpia = Laberinto::eliminar_espacios(&linea);
    assert_eq!(linea_limpia, caracteres("ABC1DE2"));
}

#[test]
fn test_parsear_entero() {
    assert_eq!(Laberinto::parsear_entero(&caracteres("123"), 0, 0).0, 123);
    assert_eq!(Laberinto::parsear_entero(&caracteres("42abc"), 0, 0).0, 42);
    // El valor por defecto se usa cuando no hay digitos
    assert_eq!(Laberinto::parsear_entero(&caracteres("abc"), 0, 10).0, 10);
}

#[test]
fn test_parsear_entero_posicion() {
    let (valor, fin) = Laberinto::parsear_entero(&caracteres("42abc"), 0, 0);
    assert_eq!(valor, 42);
    assert_eq!(fin, 2);
    // Un numero que no cabe en un i32 tambien vale el defecto
    let (valor, fin) = Laberinto::parsear_entero(&caracteres("99999999999"), 0, 7);
    assert_eq!(valor, 7);
    assert_eq!(fin, 11);
}

#[test]
fn test_parsear_direccion() {
    assert_eq!(
        Laberinto::parsear_direccion(&caracteres("LRU"), 0, Direccion::Abajo).0,
        Direccion::Izquierda
    );
    assert_eq!(
        Laberinto::parsear_direccion(&caracteres("R"), 0, Direccion::Arriba).0,
        Direccion::Derecha
    );
    assert_eq!(
        Laberinto::parsear_direccion(&caracteres("XYZ"), 0, Direccion::Izquierda).0,
        Direccion::Izquierda
    );
}

#[test]
fn test_cargar_objeto_defectos() {
    // Un enemigo sin numero tiene una vida; una bomba sin numero, alcance 0
    let vacia = caracteres("");
    assert_eq!(
        Laberinto::cargar_objeto('F', &vacia, 0).0,
        Ok(Objeto::Enemigo(1))
    );
    assert_eq!(
        Laberinto::cargar_objeto('B', &vacia, 0).0,
        Ok(Objeto::Bomba(0))
    );
    assert_eq!(
        Laberinto::cargar_objeto('S', &vacia, 0).0,
        Ok(Objeto::BombaTraspaso(0))
    );
    // Un desvio sin letra, o con una letra desconocida, apunta hacia arriba
    assert_eq!(
        Laberinto::cargar_objeto('D', &vacia, 0).0,
        Ok(Objeto::Desvio(Direccion::Arriba))
    );
    let rara = caracteres("5");
    let (objeto, fin) = Laberinto::cargar_objeto('D', &rara, 0);
    assert_eq!(objeto, Ok(Objeto::Desvio(Direccion::Arriba)));
    assert_eq!(fin, 1);
    // Una letra desconocida es una falla
    assert_eq!(
        Laberinto::cargar_objeto('Z', &vacia, 0).0,
        Err(Falla::EntradaMalformada)
    );
}

#[test]
fn test_cargar_laberinto() {
    let contenido = "\
        B2 R R _ F1 _ _\n\
        _ W R W _ W _\n\
        B5 _ _ _ B2 _ _\n\
        _ W _ W _ W _\n\
        _ _ _ _ _ _ _\n\
        _ W _ W _ W _\n\
        _ _ _ _ _ _ _\n";

    let lineas = filas_de_texto(contenido);
    match Laberinto::desde_lineas(&lineas) {
        Ok(laberinto) => {
            assert_eq!(laberinto.tamano, 7);
            let primer_elemento = &laberinto.grid[0][0].objeto;
            assert_eq!(primer_elemento, &Objeto::Bomba(2));
            let celda_prueba = Celda {
                objeto: Objeto::Pared,
                x: 1,
                y: 1,
            };
            let celda_test = &laberinto.grid[1][1];
            assert_eq!(celda_test, &celda_prueba);
        }
        Err(e) => {
            panic!("Error al cargar el laberinto: {:?}", e);
        }
    }
}

#[test]
fn test_caracter_desconocido() {
    let lineas = filas_de_texto("_ X\n_ _\n");
    assert_eq!(
        Laberinto::desde_lineas(&lineas).err(),
        Some(Falla::EntradaMalformada)
    );
}

#[test]
fn test_forma_incorrecta() {
    // Tres filas, pero una con solo dos celdas
    let lineas = filas_de_texto("_ _ _\n_ _\n_ _ _\n");
    assert_eq!(
        Laberinto::desde_lineas(&lineas).err(),
        Some(Falla::FormaIncorrecta)
    );
}

#[test]
fn test_cargar_fila_de_linea() {
    let linea = caracteres("F2W_");
    match Laberinto::cargar_laberinto_desde_linea(&linea, 3) {
        Ok(fila) => {
            assert_eq!(fila.len(), 3);
            assert_eq!(
                fila[0],
                Celda {
                    objeto: Objeto::Enemigo(2),
                    x: 0,
                    y: 3
                }
            );
            assert_eq!(
                fila[1],
                Celda {
                    objeto: Objeto::Pared,
                    x: 1,
                    y: 3
                }
            );
            assert_eq!(
                fila[2],
                Celda {
                    objeto: Objeto::Vacio,
                    x: 2,
                    y: 3
                }
            );
        }
        Err(e) => {
            panic!("Error al cargar la fila: {:?}", e);
        }
    }
}
