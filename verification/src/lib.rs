//! Simulacion de la detonacion de bombas en un laberinto cuadrado.
//!
//! El laberinto contiene enemigos, rocas, paredes, desvios y bombas.
//! Detonar una bomba lanza cuatro rayos que danan enemigos, se detienen
//! ante obstaculos, se doblan en los desvios y encadenan otras bombas.
//! El resultado de una detonacion esta pinzado por el modelo matematico
//! del modulo `explosion`.
//!
//! La decodificacion de texto es estricta: una letra que no nombra
//! ningun objeto es una falla, no una celda vacia.

pub mod bomberman;
pub mod codificar;
pub mod conteo;
pub mod explosion;
pub mod falla;
pub mod inversa;
pub mod model;
