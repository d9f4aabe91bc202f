pub mod celda;
pub mod direccion;
pub mod laberinto;
pub mod objeto;
