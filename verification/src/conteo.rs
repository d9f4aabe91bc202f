use vstd::prelude::*;

use crate::model::celda::Celda;
use crate::model::objeto::es_bomba;

verus! {

/// Cantidad de bombas entre las primeras `n` celdas de una fila.
pub open spec fn bombas_en_fila(fila: Seq<Celda>, n: int) -> nat
    decreases n,
{
    if n <= 0 {
        0
    } else {
        bombas_en_fila(fila, n - 1) + if es_bomba(fila[n - 1].objeto) {
            1nat
        } else {
            0nat
        }
    }
}

/// Cantidad de bombas entre las primeras `n` filas de un laberinto.
pub open spec fn bombas_en_filas(grid: Seq<Seq<Celda>>, n: int) -> nat
    decreases n,
{
    if n <= 0 {
        0
    } else {
        bombas_en_filas(grid, n - 1) + bombas_en_fila(grid[n - 1], grid[n - 1].len() as int)
    }
}

/// Cantidad total de bombas del laberinto. Cada bomba se consume al
/// detonar y ninguna aparece, asi que este numero solo puede bajar; por
/// eso acota la profundidad de las reacciones en cadena.
pub open spec fn num_bombas(grid: Seq<Seq<Celda>>) -> nat {
    bombas_en_filas(grid, grid.len() as int)
}

/// Cambiar la celda `x` de una fila cambia la cuenta de bombas del
/// prefijo exactamente segun la celda vieja y la nueva.
pub proof fn lema_bombas_en_fila_actualizada(fila: Seq<Celda>, x: int, c: Celda, n: int)
    requires
        0 <= x < fila.len(),
        n <= fila.len(),
    ensures
        x < n ==> bombas_en_fila(fila.update(x, c), n) + (if es_bomba(fila[x].objeto) {
            1nat
        } else {
            0nat
        }) == bombas_en_fila(fila, n) + (if es_bomba(c.objeto) {
            1nat
        } else {
            0nat
        }),
        x >= n ==> bombas_en_fila(fila.update(x, c), n) == bombas_en_fila(fila, n),
    decreases n,
{
    if n > 0 {
        lema_bombas_en_fila_actualizada(fila, x, c, n - 1);
    }
}

/// Version de `lema_bombas_en_fila_actualizada` para el laberinto
/// entero: actualizar una celda ajusta la cuenta total segun el objeto
/// viejo y el nuevo.
pub proof fn lema_bombas_en_filas_actualizadas(
    grid: Seq<Seq<Celda>>,
    x: int,
    y: int,
    c: Celda,
    n: int,
)
    requires
        0 <= y < grid.len(),
        0 <= x < grid[y].len(),
        n <= grid.len(),
    ensures
        y < n ==> bombas_en_filas(grid.update(y, grid[y].update(x, c)), n) + (if es_bomba(
            grid[y][x].objeto,
        ) {
            1nat
        } else {
            0nat
        }) == bombas_en_filas(grid, n) + (if es_bomba(c.objeto) {
            1nat
        } else {
            0nat
        }),
        y >= n ==> bombas_en_filas(grid.update(y, grid[y].update(x, c)), n) == bombas_en_filas(
            grid,
            n,
        ),
    decreases n,
{
    if n > 0 {
        lema_bombas_en_filas_actualizadas(grid, x, y, c, n - 1);
        if y == n - 1 {
            lema_bombas_en_fila_actualizada(grid[y], x, c, grid[y].len() as int);
        }
    }
}

/// Actualizar la celda `(x, y)` cambia `num_bombas` exactamente segun si
/// el objeto viejo y el nuevo son bombas.
pub proof fn lema_num_bombas_actualizada(grid: Seq<Seq<Celda>>, x: int, y: int, c: Celda)
    requires
        0 <= y < grid.len(),
        0 <= x < grid[y].len(),
    ensures
        num_bombas(grid.update(y, grid[y].update(x, c))) + (if es_bomba(grid[y][x].objeto) {
            1nat
        } else {
            0nat
        }) == num_bombas(grid) + (if es_bomba(c.objeto) {
            1nat
        } else {
            0nat
        }),
{
    lema_bombas_en_filas_actualizadas(grid, x, y, c, grid.len() as int);
}

} // verus!
