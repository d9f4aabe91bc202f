use vstd::prelude::*;

use crate::bomberman::celda_en;
use crate::model::celda::Celda;
use crate::model::direccion::Direccion;
use crate::model::laberinto::Laberinto;
use crate::model::objeto::Objeto;
use crate::model::objeto::objeto_valido;

verus! {

/// Caracter del digito decimal `d`.
pub open spec fn digito(d: int) -> char {
    if d == 0 {
        '0'
    } else if d == 1 {
        '1'
    } else if d == 2 {
        '2'
    } else if d == 3 {
        '3'
    } else if d == 4 {
        '4'
    } else if d == 5 {
        '5'
    } else if d == 6 {
        '6'
    } else if d == 7 {
        '7'
    } else if d == 8 {
        '8'
    } else {
        '9'
    }
}

/// Escritura decimal del numero `n`, sin ceros a la izquierda.
pub open spec fn digitos(n: int) -> Seq<char>
    decreases n,
{
    if n < 10 {
        seq![digito(n)]
    } else {
        digitos(n / 10).push(digito(n % 10))
    }
}

/// Letra con la que se escribe cada direccion.
pub open spec fn letra_direccion(d: Direccion) -> char {
    match d {
        Direccion::Izquierda => 'L',
        Direccion::Derecha => 'R',
        Direccion::Arriba => 'U',
        Direccion::Abajo => 'D',
    }
}

/// Token con el que se escribe un objeto: la letra del tipo seguida de
/// sus datos.
pub open spec fn token_objeto(o: Objeto) -> Seq<char> {
    match o {
        Objeto::Enemigo(v) => seq!['F'] + digitos(v as int),
        Objeto::Bomba(a) => seq!['B'] + digitos(a as int),
        Objeto::BombaTraspaso(a) => seq!['S'] + digitos(a as int),
        Objeto::Roca => seq!['R'],
        Objeto::Pared => seq!['W'],
        Objeto::Desvio(d) => seq!['D', letra_direccion(d)],
        Objeto::Vacio => seq!['_'],
    }
}

/// Las primeras `n` celdas de una fila escritas como tokens separados
/// por espacios.
pub open spec fn fila_codificada(fila: Seq<Celda>, n: int) -> Seq<char>
    decreases n,
{
    if n <= 0 {
        Seq::empty()
    } else if n == 1 {
        token_objeto(fila[0].objeto)
    } else {
        fila_codificada(fila, n - 1) + seq![' '] + token_objeto(fila[n - 1].objeto)
    }
}

/// Las primeras `n` filas escritas una por linea.
pub open spec fn grid_codificada(g: Seq<Seq<Celda>>, n: int) -> Seq<char>
    decreases n,
{
    if n <= 0 {
        Seq::empty()
    } else if n == 1 {
        fila_codificada(g[0], g[0].len() as int)
    } else {
        grid_codificada(g, n - 1) + seq!['\n'] + fila_codificada(g[n - 1], g[n - 1].len() as int)
    }
}

/// Escritura textual completa de una grilla: una linea por fila, sin
/// separadores al final.
pub open spec fn codificacion(g: Seq<Seq<Celda>>) -> Seq<char> {
    grid_codificada(g, g.len() as int)
}

/// Caracter del digito `d`, en tiempo de ejecucion.
fn caracter_digito(d: u32) -> (c: char)
    requires
        d < 10,
    ensures
        c == digito(d as int),
{
    match d {
        0 => '0',
        1 => '1',
        2 => '2',
        3 => '3',
        4 => '4',
        5 => '5',
        6 => '6',
        7 => '7',
        8 => '8',
        _ => '9',
    }
}

/// Escribe `n` en decimal al final de `destino`.
fn anexar_decimal(destino: &mut Vec<char>, n: u32)
    ensures
        final(destino)@ == old(destino)@ + digitos(n as int),
    decreases n,
{
    if n >= 10 {
        anexar_decimal(destino, n / 10);
    }
    destino.push(caracter_digito(n % 10));
    proof {
        if n < 10 {
            assert(n % 10 == n as int);
            assert(old(destino)@.push(digito(n as int)) =~= old(destino)@ + digitos(n as int));
        } else {
            assert((old(destino)@ + digitos(n as int / 10)).push(digito(n as int % 10)) =~= old(
                destino,
            )@ + digitos(n as int));
        }
    }
}

/// Escribe el token del objeto al final de `destino`.
fn anexar_token(destino: &mut Vec<char>, objeto: Objeto)
    requires
        objeto_valido(objeto),
    ensures
        final(destino)@ == old(destino)@ + token_objeto(objeto),
{
    match objeto {
        Objeto::Enemigo(vidas) => {
            destino.push('F');
            anexar_decimal(destino, vidas as u32);
            proof {
                assert(destino@ =~= old(destino)@ + token_objeto(objeto));
            }
        },
        Objeto::Bomba(alcance) => {
            destino.push('B');
            anexar_decimal(destino, alcance as u32);
            proof {
                assert(destino@ =~= old(destino)@ + token_objeto(objeto));
            }
        },
        Objeto::BombaTraspaso(alcance) => {
            destino.push('S');
            anexar_decimal(destino, alcance as u32);
            proof {
                assert(destino@ =~= old(destino)@ + token_objeto(objeto));
            }
        },
        Objeto::Roca => {
            destino.push('R');
            proof {
                assert(destino@ =~= old(destino)@ + token_objeto(objeto));
            }
        },
        Objeto::Pared => {
            destino.push('W');
            proof {
                assert(destino@ =~= old(destino)@ + token_objeto(objeto));
            }
        },
        Objeto::Desvio(direccion) => {
            destino.push('D');
            let letra = match direccion {
                Direccion::Izquierda => 'L',
                Direccion::Derecha => 'R',
                Direccion::Arriba => 'U',
                Direccion::Abajo => 'D',
            };
            destino.push(letra);
            proof {
                assert(destino@ =~= old(destino)@ + token_objeto(objeto));
            }
        },
        Objeto::Vacio => {
            destino.push('_');
            proof {
                assert(destino@ =~= old(destino)@ + token_objeto(objeto));
            }
        },
    }
}

/// Escritura textual del laberinto: cada fila en una linea, los tokens
/// de sus celdas separados por espacios, sin espacio ni salto de linea
/// al final.
pub fn codificar_laberinto(laberinto: &Laberinto) -> (r: Vec<char>)
    requires
        laberinto.bien_formado(),
    ensures
        r@ == codificacion(laberinto.vista()),
{
    let ghost v = laberinto.vista();
    let tamano = laberinto.tamano;
    let mut r: Vec<char> = Vec::new();
    let mut y: usize = 0;
    while y < tamano
        invariant
            y <= tamano,
            laberinto.bien_formado(),
            tamano == laberinto.tamano,
            v == laberinto.vista(),
            r@ == grid_codificada(v, y as int),
        decreases tamano - y,
    {
        if y > 0 {
            r.push('\n');
        }
        let ghost base = r@;
        let mut x: usize = 0;
        while x < tamano
            invariant
                x <= tamano,
                y < tamano,
                laberinto.bien_formado(),
                tamano == laberinto.tamano,
                v == laberinto.vista(),
                base == grid_codificada(v, y as int) + (if y == 0 {
                    Seq::<char>::empty()
                } else {
                    seq!['\n']
                }),
                r@ == base + fila_codificada(v[y as int], x as int),
            decreases tamano - x,
        {
            if x > 0 {
                r.push(' ');
            }
            let ghost r_antes = r@;
            let objeto = celda_en(laberinto, x, y).objeto;
            anexar_token(&mut r, objeto);
            proof {
                if x == 0 {
                    assert(r@ =~= base + fila_codificada(v[y as int], 1));
                } else {
                    assert(r_antes =~= base + fila_codificada(v[y as int], x as int) + seq![' ']);
                    assert(r@ =~= base + fila_codificada(v[y as int], x + 1));
                }
            }
            x = x + 1;
        }
        proof {
            if y == 0 {
                assert(base =~= grid_codificada(v, 0));
                assert(r@ =~= grid_codificada(v, 1));
            } else {
                assert(r@ =~= grid_codificada(v, y + 1));
            }
        }
        y = y + 1;
    }
    r
}

} // verus!
