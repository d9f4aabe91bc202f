use bomberman_r::bomberman::detonar_bomba;
use bomberman_r::codificar::codificar_laberinto;
use bomberman_r::model::laberinto::Laberinto;

fn laberinto_de_texto(texto: &str) -> Laberinto {
    let lineas: Vec<Vec<char>> = texto.lines().map(|linea| linea.chars().collect()).collect();
    match Laberinto::desde_lineas(&lineas) {
        Ok(laberinto) => laberinto,
        Err(e) => panic!("Error al cargar el laberinto: {:?}", e),
    }
}

fn texto_de(laberinto: &Laberinto) -> String {
    codificar_laberinto(laberinto).into_iter().collect()
}

#[test]
fn test_codificar_laberinto() {
    let laberinto = laberinto_de_texto("B2 R\n_ F1\n");
    assert_eq!(texto_de(&laberinto), "B2 R\n_ F1");
}

#[test]
fn test_codificar_todos_los_objetos() {
    // Cargar y volver a escribir conserva cada token, incluso los
    // alcances de varios digitos
    let texto = "S10 W DL\nDR DU DD\nF12 B0 _";
    let laberinto = laberinto_de_texto(texto);
    assert_eq!(texto_de(&laberinto), texto);
}

#[test]
fn test_decodificar_lo_codificado() {
    // Decodificar lo que la codificacion escribe devuelve el mismo
    // laberinto
    let laberinto = laberinto_de_texto("F3 B2 S1\nR W DD\n_ DL DU");
    let texto = texto_de(&laberinto);
    let lineas: Vec<Vec<char>> = texto.lines().map(|linea| linea.chars().collect()).collect();
    match Laberinto::desde_lineas(&lineas) {
        Ok(reconstruido) => {
            assert_eq!(reconstruido.tamano, laberinto.tamano);
            assert_eq!(reconstruido.grid, laberinto.grid);
        }
        Err(e) => panic!("Error al volver a cargar el laberinto: {:?}", e),
    }
}

#[test]
fn test_codificar_tras_detonar() {
    let mut laberinto = laberinto_de_texto("B1 F2\n_ W\n");
    assert!(detonar_bomba(&mut laberinto, 0, 0).is_ok());
    assert_eq!(texto_de(&laberinto), "_ F1\n_ W");
}
