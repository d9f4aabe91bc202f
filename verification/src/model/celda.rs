use vstd::prelude::*;

use crate::model::objeto::Objeto;

verus! {

/// Una celda del laberinto. Las coordenadas `x` (columna) e `y` (fila)
/// se fijan al construir el laberinto y no cambian nunca, aunque el
/// objeto de la celda si puede cambiar.
#[derive(Debug, PartialEq, Eq, Structural, Clone, Copy)]
pub struct Celda {
    /// Objeto contenido en la celda.
    pub objeto: Objeto,
    /// Columna de la celda dentro del laberinto.
    pub x: usize,
    /// Fila de la celda dentro del laberinto.
    pub y: usize,
}

} // verus!
