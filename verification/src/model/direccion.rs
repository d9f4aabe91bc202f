use vstd::prelude::*;

verus! {

/// Una de las cuatro direcciones en las que puede avanzar un rayo.
#[derive(Debug, PartialEq, Eq, Structural, Clone, Copy)]
pub enum Direccion {
    Izquierda,
    Derecha,
    Arriba,
    Abajo,
}

impl Direccion {
    /// Desplazamiento `(dx, dy)` de un paso en esta direccion: `x` crece
    /// hacia la derecha, `y` crece hacia abajo.
    pub open spec fn desplazamiento(self) -> (i32, i32) {
        match self {
            Direccion::Izquierda => (-1i32, 0i32),
            Direccion::Derecha => (1i32, 0i32),
            Direccion::Arriba => (0i32, -1i32),
            Direccion::Abajo => (0i32, 1i32),
        }
    }
}

} // verus!
