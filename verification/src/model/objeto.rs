use vstd::prelude::*;

use crate::model::direccion::Direccion;

verus! {

/// Objetos que puede contener una celda del laberinto.
#[derive(Debug, PartialEq, Eq, Structural, Clone, Copy)]
pub enum Objeto {
    /// Un enemigo con cierta cantidad de vidas.
    Enemigo(i32),
    /// Una bomba comun con cierto alcance; la roca la bloquea.
    Bomba(i32),
    /// Una bomba de traspaso: atraviesa rocas, pero no paredes.
    BombaTraspaso(i32),
    /// Una roca: bloquea bombas comunes y nunca se destruye.
    Roca,
    /// Una pared: bloquea toda bomba y nunca se destruye.
    Pared,
    /// Un desvio: redirige el rayo que lo atraviesa sin bloquearlo.
    Desvio(Direccion),
    /// Una celda vacia.
    Vacio,
}

/// Verdadero para los dos tipos de bomba.
pub open spec fn es_bomba(o: Objeto) -> bool {
    match o {
        Objeto::Bomba(_) => true,
        Objeto::BombaTraspaso(_) => true,
        _ => false,
    }
}

/// Un objeto cuyos datos estan dentro del rango que produce la
/// decodificacion: vidas y alcances nunca negativos.
pub open spec fn objeto_valido(o: Objeto) -> bool {
    match o {
        Objeto::Enemigo(v) => v >= 0,
        Objeto::Bomba(a) => a >= 0,
        Objeto::BombaTraspaso(a) => a >= 0,
        _ => true,
    }
}

/// Efecto de un punto de dano sobre un objeto: un enemigo con mas de una
/// vida pierde una; un enemigo sin mas vidas desaparece; todo otro objeto
/// queda igual.
pub open spec fn danar(o: Objeto) -> Objeto {
    match o {
        Objeto::Enemigo(v) => if v <= 1 {
            Objeto::Vacio
        } else {
            Objeto::Enemigo((v - 1) as i32)
        },
        _ => o,
    }
}

/// Relacion entre el objeto de una celda antes y despues de una
/// detonacion: rocas, paredes y desvios no cambian; lo vacio sigue vacio;
/// un enemigo conserva o pierde vidas, o desaparece; una bomba queda
/// igual o se consume.
pub open spec fn evoluciona(antes: Objeto, despues: Objeto) -> bool {
    match antes {
        Objeto::Enemigo(v) => match despues {
            Objeto::Enemigo(w) => w == v || (0 <= w && w < v),
            Objeto::Vacio => true,
            _ => false,
        },
        Objeto::Bomba(_) => despues == antes || despues == Objeto::Vacio,
        Objeto::BombaTraspaso(_) => despues == antes || despues == Objeto::Vacio,
        _ => despues == antes,
    }
}

} // verus!
