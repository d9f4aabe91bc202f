use vstd::prelude::*;

verus! {

/// Fallas que pueden surgir al decodificar un laberinto o al detonar
/// una bomba.
#[derive(Debug, PartialEq, Eq, Structural, Clone, Copy)]
pub enum Falla {
    /// Un caracter de la entrada no corresponde a ningun objeto.
    EntradaMalformada,
    /// Alguna fila no tiene tantas celdas como filas hay.
    FormaIncorrecta,
    /// Las coordenadas quedan fuera del laberinto.
    FueraDeLimites,
}

} // verus!
