# Game of Life

Conway's Game of Life in a window, drawn with Vulkan. Press `U` for the next
generation and `N` for a new random board.

The library in `src/` is verified with Verus:

- `life`: the rules on mathematical patterns, and laws that follow from them;
- `grid`: the board;
- `single`: single-precision rounding on whole numbers;
- `layout`: how a window is divided into cells and how many vertices it takes;
- `render`: the vertices of the picture and the turns of the vertex buffers;
- `device`: the choice of a device, a queue and the length of the swapchain;
- `game`: what every window event changes, and what it leaves to be done.

`app/` opens the window, talks to the graphics device and does what the library
asks for.
